//! Closure instructions: making, calling and comparing closures, reading
//! captures, and the drop and deep-copy of environments.
//!
//! A closure value is a `{ code, env }` pair. An environment begins with
//! a header (its count, the addresses of its drop, copy and equality
//! glue, and the id of the closure's site) and holds the captures behind
//! it. A closure body takes the environment in front of its parameters.

use vstd::arithmetic::power2::lemma2_to64;
use vstd::prelude::*;
use crate::ctx::{ClosureSite, EmitContext};
use crate::emit::frame::{undefined_value, Frame, Scope};
use crate::error::{says, LlvmError};
use crate::intrinsics::element::{deep_copy_in_slot, deep_copy_in_slot_code};
use crate::ir::{IRSymbol, IRType, ValueId};
use crate::llvm::{
    a1, a2, a3, args_from, args_of, call, is_null, itest, num, Args, Body, Callee, Code, Entry,
    Inst, LType, Pred, Val,
};
use crate::memory::{byte_limit_is_power, number, number_and_last_byte, Memory};
use crate::runtime::Rt;
use crate::semantics::{
    addresses, arguments, arrives, beginning_stands, begins_as, branches, calls, field_at, incoming,
    incoming_finds, jumps, loads, read, seek, seek_finds, takes, tests, tidy, Machine, Outside,
};
use crate::text::concat3;
use crate::types::{ir_basic_type, no_unit, value_basic_type, value_type};

verus! {

/// How many header fields precede the captures of an environment.
pub const CLOSURE_ENV_HEADER_FIELDS: usize = 5;

/// The header field of the reference count.
pub const ENV_RC_FIELD: usize = 0;

/// The header field of the drop glue.
pub const ENV_DROP_FN_FIELD: usize = 1;

/// The header field of the deep-copy glue.
pub const ENV_COPY_FN_FIELD: usize = 2;

/// The header field of the site id.
pub const ENV_SITE_ID_FIELD: usize = 3;

/// The header field of the equality glue.
pub const ENV_EQ_FN_FIELD: usize = 4;

/// The most captures whose fields can still be numbered.
pub const MAX_CAPTURES: usize = 0xffff_fffa;

/// The address of a glue function, null where there is none.
pub open spec fn glue_pointer(glue: Option<usize>) -> Val {
    match glue {
        Some(k) => Val::Function(k),
        None => Val::Null,
    }
}

/// The address of a glue function, null where there is none.
pub fn env_glue_ptr(glue: Option<usize>) -> (r: Val)
    ensures
        r == glue_pointer(glue),
{
    match glue {
        Some(k) => Val::Function(k),
        None => Val::Null,
    }
}

/// A store to an environment field.
pub open spec fn env_field_code(
    s: Code,
    env: usize,
    ptr: Val,
    field: usize,
    ty: LType,
    value: Val,
) -> Code {
    s.i(Inst::Field(LType::Env(env), ptr, field)).i(Inst::Store(ty, value, s.v(0)))
}

/// Stores to an environment field.
pub fn store_env_field(f: &mut Body, env: usize, ptr: Val, field: usize, ty: LType, value: Val)
    ensures
        final(f)@ == env_field_code(old(f)@, env, ptr, field, ty, value),
{
    let slot = f.ins(Inst::Field(LType::Env(env), ptr, field));
    f.ins(Inst::Store(ty, value, slot));
}

/// The stores of the first `k` captures.
pub open spec fn env_captures_code(
    c: &EmitContext,
    s: Code,
    env: usize,
    ptr: Val,
    vals: Seq<Val>,
    k: nat,
) -> Code
    decreases k,
{
    if k == 0 {
        s
    } else {
        env_field_code(
            env_captures_code(c, s, env, ptr, vals, (k - 1) as nat),
            env,
            ptr,
            (k - 1 + CLOSURE_ENV_HEADER_FIELDS) as usize,
            value_type(c.captures(env)[k - 1]),
            vals[k - 1],
        )
    }
}

/// A fresh environment: its allocation, its header with a count of one,
/// and its captures.
pub open spec fn env_alloc_code(c: &EmitContext, s: Code, site: ClosureSite, vals: Seq<Val>) -> Code {
    let env = site.env;
    let a = s.i(call(Rt::Malloc, a1(num(c.abi(LType::Env(env))))));
    let h = env_field_code(
        env_field_code(
            env_field_code(
                env_field_code(
                    env_field_code(a, env, s.v(0), ENV_RC_FIELD, LType::I64, num(1)),
                    env,
                    s.v(0),
                    ENV_DROP_FN_FIELD,
                    LType::Ptr,
                    glue_pointer(site.drop_fn),
                ),
                env,
                s.v(0),
                ENV_COPY_FN_FIELD,
                LType::Ptr,
                glue_pointer(site.copy_fn),
            ),
            env,
            s.v(0),
            ENV_SITE_ID_FIELD,
            LType::I64,
            num(site.site_id),
        ),
        env,
        s.v(0),
        ENV_EQ_FN_FIELD,
        LType::Ptr,
        glue_pointer(site.eq_fn),
    );
    env_captures_code(c, h, env, s.v(0), vals, vals.len())
}

/// Allocates an environment and fills it.
pub fn emit_env_alloc_and_store(c: &EmitContext, f: &mut Body, site: ClosureSite, vals: &Vec<Val>) -> (r:
    Val)
    requires
        vals@.len() == c.captures(site.env).len(),
        vals@.len() <= MAX_CAPTURES,
    ensures
        final(f)@ == env_alloc_code(c, old(f)@, site, vals@),
        r == old(f)@.v(0),
{
    let env = site.env;
    let ptr = f.ins(call(Rt::Malloc, a1(num(c.abi_size(LType::Env(env))))));
    store_env_field(f, env, ptr, ENV_RC_FIELD, LType::I64, num(1));
    store_env_field(f, env, ptr, ENV_DROP_FN_FIELD, LType::Ptr, env_glue_ptr(site.drop_fn));
    store_env_field(f, env, ptr, ENV_COPY_FN_FIELD, LType::Ptr, env_glue_ptr(site.copy_fn));
    store_env_field(f, env, ptr, ENV_SITE_ID_FIELD, LType::I64, num(site.site_id));
    store_env_field(f, env, ptr, ENV_EQ_FN_FIELD, LType::Ptr, env_glue_ptr(site.eq_fn));
    let ghost h = f@;
    let mut i: usize = 0;
    while i < vals.len()
        invariant
            i <= vals.len(),
            vals@.len() == c.captures(env).len(),
            vals@.len() <= MAX_CAPTURES,
            f@ == env_captures_code(c, h, env, ptr, vals@, i as nat),
        decreases vals.len() - i,
    {
        let field: usize = i + CLOSURE_ENV_HEADER_FIELDS;
        store_env_field(f, env, ptr, field, value_basic_type(c.capture_type(env, i)), vals[i]);
        i = i + 1;
    }
    ptr
}

/// A `{ code, env }` pair, packed through a stack slot.
pub open spec fn fat_pointer_code(s: Code, code: Val, env: Val) -> Code {
    s.slot(LType::Closure)
        .i(Inst::Field(LType::Closure, s.sv(0), 0))
        .i(Inst::Store(LType::Ptr, code, s.v(0)))
        .i(Inst::Field(LType::Closure, s.sv(0), 1))
        .i(Inst::Store(LType::Ptr, env, s.v(2)))
        .i(Inst::Load(LType::Closure, s.sv(0)))
}

/// Packs a closure value.
pub fn build_closure_fat_pointer(f: &mut Body, code: Val, env: Val) -> (r: Val)
    ensures
        final(f)@ == fat_pointer_code(old(f)@, code, env),
        r == old(f)@.v(4),
{
    let slot = f.slot(LType::Closure);
    let fn_slot = f.ins(Inst::Field(LType::Closure, slot, 0));
    f.ins(Inst::Store(LType::Ptr, code, fn_slot));
    let env_slot = f.ins(Inst::Field(LType::Closure, slot, 1));
    f.ins(Inst::Store(LType::Ptr, env, env_slot));
    f.ins(Inst::Load(LType::Closure, slot))
}

/// A closure over some captures. One without captures shares the static,
/// immortal environment of its body; any other gets an environment of its
/// own. There is none where the body or its site is not declared, or
/// where the captures do not fit the site's layout.
pub open spec fn make_closure_code(
    c: &EmitContext,
    s: Code,
    sc: Scope,
    body: IRSymbol,
    captures: Seq<ValueId>,
) -> Option<(Code, Val)> {
    match (sc.all_values(captures), c.function_of(body), c.site_of(body)) {
        (Some(vals), Some(k), Some(site)) => if vals.len() == 0 {
            Some((fat_pointer_code(s, Val::Function(k), Val::StaticEnv(body)), s.v(4)))
        } else if vals.len() == c.captures(site.env).len() && vals.len() <= MAX_CAPTURES {
            let e = env_alloc_code(c, s, site, vals);
            Some((fat_pointer_code(e, Val::Function(k), s.v(0)), e.v(4)))
        } else {
            None
        },
        _ => None,
    }
}

/// What is said of a closure body that is not declared as it is used.
pub open spec fn undeclared_closure(c: &EmitContext, body: IRSymbol) -> Seq<char> {
    "closure body `"@ + c.mangled(body) + "` is not declared with its captures"@
}

fn undeclared(c: &EmitContext, body: IRSymbol) -> (r: LlvmError)
    ensures
        says(r, undeclared_closure(c, body)),
{
    LlvmError::Codegen(
        concat3("closure body `", c.name_of(body), "` is not declared with its captures"),
    )
}

/// What is said of a closure that cannot be made.
pub open spec fn make_closure_fault(c: &EmitContext, sc: Scope, body: IRSymbol, captures: Seq<ValueId>) -> Seq<
    char,
> {
    if sc.all_values(captures) is None {
        sc.missing_value(captures, 0)
    } else {
        undeclared_closure(c, body)
    }
}

/// Emits a closure over some captures.
pub fn emit_make_closure(
    c: &EmitContext,
    f: &mut Body,
    fr: &Frame,
    body: IRSymbol,
    captures: &Vec<ValueId>,
) -> (r: Result<Val, LlvmError>)
    ensures
        match r {
            Ok(v) => make_closure_code(c, old(f)@, fr@, body, captures@) == Some((final(f)@, v)),
            Err(e) => make_closure_code(c, old(f)@, fr@, body, captures@) is None && says(
                e,
                make_closure_fault(c, fr@, body, captures@),
            ),
        },
{
    let vals = fr.lookup_all(captures)?;
    let k: usize = match c.declared_function(body) {
        Some(k) => k,
        None => {
            return Err(undeclared(c, body));
        },
    };
    let site = match c.closure_site(body) {
        Some(site) => site,
        None => {
            return Err(undeclared(c, body));
        },
    };
    if vals.len() == 0 {
        Ok(build_closure_fat_pointer(f, Val::Function(k), Val::StaticEnv(body)))
    } else if vals.len() == c.capture_len(site.env) && vals.len() <= MAX_CAPTURES {
        let env = emit_env_alloc_and_store(c, f, site, &vals);
        Ok(build_closure_fat_pointer(f, Val::Function(k), env))
    } else {
        Err(undeclared(c, body))
    }
}

/// The environment pointer of a closure value.
pub open spec fn env_ptr_code(s: Code, closure: Val) -> Code {
    s.slot(LType::Closure)
        .i(Inst::Store(LType::Closure, closure, s.sv(0)))
        .i(Inst::Field(LType::Closure, s.sv(0), 1))
        .i(Inst::Load(LType::Ptr, s.v(1)))
}

/// Reads the environment pointer of a closure value.
pub fn load_closure_env_ptr(f: &mut Body, closure: Val) -> (r: Val)
    ensures
        final(f)@ == env_ptr_code(old(f)@, closure),
        r == old(f)@.v(2),
{
    let slot = f.slot(LType::Closure);
    f.ins(Inst::Store(LType::Closure, closure, slot));
    let env_slot = f.ins(Inst::Field(LType::Closure, slot, 1));
    f.ins(Inst::Load(LType::Ptr, env_slot))
}

/// A word of an environment's header.
pub open spec fn header_word_code(s: Code, env: Val, field: usize, ty: LType) -> Code {
    s.i(Inst::Field(LType::EnvHeader, env, field)).i(Inst::Load(ty, s.v(0)))
}

/// Loads a word of an environment's header.
pub fn load_env_header_word(f: &mut Body, env: Val, field: usize, ty: LType) -> (r: Val)
    ensures
        final(f)@ == header_word_code(old(f)@, env, field, ty),
        r == old(f)@.v(1),
{
    let slot = f.ins(Inst::Field(LType::EnvHeader, env, field));
    f.ins(Inst::Load(ty, slot))
}

/// `lhs == rhs` on two closures of one type. The blocks are captures,
/// call and merge: closures of different sites differ, those of one site
/// without equality glue are equal, and otherwise the glue decides.
pub open spec fn closure_equals_code(s: Code, lhs: Val, rhs: Val, signature: usize) -> Code {
    let e = env_ptr_code(env_ptr_code(s
        .word("closure_eq.captures"@)
        .word("closure_eq.call"@)
        .word("closure_eq.merge"@), lhs), rhs);
    let w = header_word_code(
        header_word_code(e, s.v(2), ENV_SITE_ID_FIELD, LType::I64),
        s.v(5),
        ENV_SITE_ID_FIELD,
        LType::I64,
    )
        .i(itest(Pred::Eq, s.v(7), s.v(9)))
        .i(Inst::CondBr(s.v(10), s.b(0), s.b(2)))
        .at(s.b(0));
    header_word_code(w, s.v(2), ENV_EQ_FN_FIELD, LType::Ptr)
        .i(is_null(s.v(13)))
        .i(Inst::CondBr(s.v(14), s.b(2), s.b(1)))
        .at(s.b(1))
        .i(Inst::Call(Callee::Pointer(s.v(13), signature), a2(s.v(2), rhs)))
        .i(Inst::Br(s.b(2)))
        .at(s.b(2))
        .i(Inst::Phi(LType::I1))
        .edge(s.v(18), num(0), s.cur)
        .edge(s.v(18), num(1), s.b(0))
        .edge(s.v(18), s.v(16), s.b(1))
}

/// A comparison of two closures, from the words of the headers on.
spec fn equality_stands(code: Code, n: nat, block: nat, from: usize, rhs: Val, signature: usize) -> bool {
    let at = |k: int| Val::At((n + k) as usize);
    let b = |k: int| (block + k) as usize;
    let is = |k: int, block: usize, inst: Inst| code.log[n + k] == Entry { block: block, inst: inst };
    &&& n + 20 <= code.log.len() <= usize::MAX
    &&& is(6, from, Inst::Field(LType::EnvHeader, at(2), ENV_SITE_ID_FIELD))
    &&& is(7, from, Inst::Load(LType::I64, at(6)))
    &&& is(8, from, Inst::Field(LType::EnvHeader, at(5), ENV_SITE_ID_FIELD))
    &&& is(9, from, Inst::Load(LType::I64, at(8)))
    &&& is(10, from, itest(Pred::Eq, at(7), at(9)))
    &&& is(11, from, Inst::CondBr(at(10), b(0), b(2)))
    &&& is(12, b(0), Inst::Field(LType::EnvHeader, at(2), ENV_EQ_FN_FIELD))
    &&& is(13, b(0), Inst::Load(LType::Ptr, at(12)))
    &&& is(14, b(0), is_null(at(13)))
    &&& is(15, b(0), Inst::CondBr(at(14), b(2), b(1)))
    &&& is(16, b(1), Inst::Call(Callee::Pointer(at(13), signature), a2(at(2), rhs)))
    &&& is(17, b(1), Inst::Br(b(2)))
    &&& is(18, b(2), Inst::Phi(LType::I1))
    &&& code.log[n as int + 19].block == b(2)
    &&& incoming(code.edges, at(18), from) == Some(num(0))
    &&& incoming(code.edges, at(18), b(0)) == Some(num(1))
    &&& incoming(code.edges, at(18), b(1)) == Some(at(16))
    &&& seek(code.log, b(0), 0) == n + 12
    &&& seek(code.log, b(1), 0) == n + 16
    &&& seek(code.log, b(2), 0) == n + 18
}

/// A comparison of two closures stands where it was recorded.
proof fn equality_is_recorded(s: Code, code: Code, lhs: Val, rhs: Val, signature: usize)
    requires
        tidy(s),
        s.blocks + 3 <= usize::MAX,
        begins_as(code, closure_equals_code(s, lhs, rhs, signature)),
        code.log.len() > s.log.len() + 19,
        code.log[s.log.len() as int + 19].block == s.b(2),
    ensures
        equality_stands(code, s.log.len(), s.blocks, s.cur, rhs, signature),
{
    let part = closure_equals_code(s, lhs, rhs, signature);
    let n = s.log.len();
    let e = s.edges.len() as int;
    beginning_stands(code, part);
    assert(part.log.len() == n + 19 && part.edges.len() == e + 3);
    assert forall|i: int| 0 <= i < n implies (#[trigger] part.log[i]).block < s.blocks by {
        assert(part.log[i] == s.log[i]);
    }
    assert forall|j: int| 0 <= j < e implies #[trigger] part.edges[j] == s.edges[j] by {}
    seek_finds(code.log, s.b(0), 0, n + 12);
    seek_finds(code.log, s.b(1), 0, n + 16);
    seek_finds(code.log, s.b(2), 0, n + 18);
    incoming_finds(code.edges, s.v(18), s.cur, e);
    incoming_finds(code.edges, s.v(18), s.b(0), e + 1);
    incoming_finds(code.edges, s.v(18), s.b(1), e + 2);
}

/// The machine has compared two closures.
pub open spec fn closures_compared(s: Code, equal: int) -> spec_fn(Machine) -> bool {
    |l: Machine|
        l.at == s.log.len() + 19 && l.results[(s.log.len() + 18) as usize] == equal
}

/// A word of the header of an environment.
pub open spec fn header_word(o: Outside, memory: Memory, env: int, field: usize) -> int {
    number(memory, field_at(o, LType::EnvHeader, env, field), 8)
}

/// Closures of different sites differ. Closures of one site are equal
/// where the left environment has no equality glue, which one without
/// captures has not, and otherwise are what the glue says of the left
/// environment and the right closure. Sites and glue are read from the
/// environments' own headers.
pub proof fn closures_equal_by_site_and_glue(
    s: Code,
    code: Code,
    o: Outside,
    m: Machine,
    lhs: Val,
    rhs: Val,
    signature: usize,
)
    requires
        tidy(s),
        s.blocks + 3 <= usize::MAX,
        begins_as(code, closure_equals_code(s, lhs, rhs, signature)),
        code.log.len() > s.log.len() + 19,
        code.log[s.log.len() as int + 19].block == s.b(2),
        s.defines(rhs),
        m.at == s.log.len() + 6,
        m.returned is None,
    ensures
        ({
            let n = s.log.len();
            let (left, right) = (m.results[(n + 2) as usize], m.results[(n + 5) as usize]);
            let glue = header_word(o, m.memory, left, ENV_EQ_FN_FIELD);
            let args = seq![left, read(o, m.results, rhs)];
            let equal = if header_word(o, m.memory, left, ENV_SITE_ID_FIELD) != header_word(
                o,
                m.memory,
                right,
                ENV_SITE_ID_FIELD,
            ) {
                0
            } else if glue == 0 {
                1
            } else {
                (o.calls)(Callee::Pointer(s.v(13), signature), args, m.memory).0
            };
            m.comes_to(code, o, closures_compared(s, equal))
        }),
{
    let n = s.log.len();
    let (left, right) = (m.results[(n + 2) as usize], m.results[(n + 5) as usize]);
    let field = field_at(o, LType::EnvHeader, left, ENV_EQ_FN_FIELD);
    let glue = number(m.memory, field, 8);
    let a = field_at(o, LType::EnvHeader, left, ENV_SITE_ID_FIELD);
    let b = field_at(o, LType::EnvHeader, right, ENV_SITE_ID_FIELD);
    equality_is_recorded(s, code, lhs, rhs, signature);
    byte_limit_is_power(8);
    lemma2_to64();
    number_and_last_byte(m.memory, field, 8);
    number_and_last_byte(m.memory, a, 8);
    number_and_last_byte(m.memory, b, 8);
    addresses(m, code, o, LType::EnvHeader, s.v(2), ENV_SITE_ID_FIELD);
    let m7 = m.step(code, o);
    loads(m7, code, o, LType::I64, s.v(6));
    let m8 = m7.step(code, o);
    addresses(m8, code, o, LType::EnvHeader, s.v(5), ENV_SITE_ID_FIELD);
    let m9 = m8.step(code, o);
    loads(m9, code, o, LType::I64, s.v(8));
    let m10 = m9.step(code, o);
    assert(m10.results[(n + 7) as usize] == number(m.memory, a, 8));
    assert(m10.results[(n + 9) as usize] == number(m.memory, b, 8));
    tests(m10, code, o, Pred::Eq, LType::I64, s.v(7), s.v(9));
    let m11 = m10.step(code, o);
    branches(m11, code, o, s.v(10), s.b(0), s.b(2));
    let m12 = m11.step(code, o);
    if number(m.memory, a, 8) != number(m.memory, b, 8) {
        takes(m12, code, o, LType::I1, num(0));
        arrives(m12.step(code, o), code, o, closures_compared(s, 0));
    } else {
        addresses(m12, code, o, LType::EnvHeader, s.v(2), ENV_EQ_FN_FIELD);
        let m13 = m12.step(code, o);
        loads(m13, code, o, LType::Ptr, s.v(12));
        let m14 = m13.step(code, o);
        assert(m14.results[(n + 13) as usize] == glue);
        tests(m14, code, o, Pred::Eq, LType::Ptr, s.v(13), Val::Null);
        let m15 = m14.step(code, o);
        branches(m15, code, o, s.v(14), s.b(2), s.b(1));
        let m16 = m15.step(code, o);
        if glue == 0 {
            takes(m16, code, o, LType::I1, num(1));
            arrives(m16.step(code, o), code, o, closures_compared(s, 1));
        } else {
            let args = a2(s.v(2), rhs);
            assert(arguments(o, m16.results, args) =~= seq![
                m.results[(n + 2) as usize],
                read(o, m.results, rhs),
            ]) by {
                reveal_with_fuel(arguments, 3);
            }
            calls(m16, code, o, Callee::Pointer(s.v(13), signature), args);
            let m17 = m16.step(code, o);
            jumps(m17, code, o, s.b(2));
            let m18 = m17.step(code, o);
            takes(m18, code, o, LType::I1, s.v(16));
            arrives(
                m18.step(code, o),
                code,
                o,
                closures_compared(s, m17.results[(n + 16) as usize]),
            );
        }
    }
}

/// Emits a comparison of two closures. `signature` is the one of the
/// equality glue: from a closure of this type to a `Bool`.
pub fn emit_closure_equals(f: &mut Body, lhs: Val, rhs: Val, signature: usize) -> (r: Val)
    ensures
        final(f)@ == closure_equals_code(old(f)@, lhs, rhs, signature),
        r == old(f)@.v(18),
{
    let captures_block = f.block("closure_eq.captures");
    let call_block = f.block("closure_eq.call");
    let merge_block = f.block("closure_eq.merge");
    let site_block: usize = f.cur;
    let lhs_env = load_closure_env_ptr(f, lhs);
    let rhs_env = load_closure_env_ptr(f, rhs);
    let lhs_site = load_env_header_word(f, lhs_env, ENV_SITE_ID_FIELD, LType::I64);
    let rhs_site = load_env_header_word(f, rhs_env, ENV_SITE_ID_FIELD, LType::I64);
    let same_site = f.ins(itest(Pred::Eq, lhs_site, rhs_site));
    f.ins(Inst::CondBr(same_site, captures_block, merge_block));

    f.at(captures_block);
    let eq_fn = load_env_header_word(f, lhs_env, ENV_EQ_FN_FIELD, LType::Ptr);
    let captureless = f.ins(is_null(eq_fn));
    f.ins(Inst::CondBr(captureless, merge_block, call_block));

    f.at(call_block);
    let captures_equal = f.ins(
        Inst::Call(Callee::Pointer(eq_fn, signature), a2(lhs_env, rhs)),
    );
    f.ins(Inst::Br(merge_block));

    f.at(merge_block);
    let phi = f.ins(Inst::Phi(LType::I1));
    f.edge(phi, num(0), site_block);
    f.edge(phi, num(1), captures_block);
    f.edge(phi, captures_equal, call_block);
    phi
}

/// A call through a closure value: its environment goes first, then the
/// arguments. A callee that returns nothing stands for the inert zero.
pub open spec fn call_closure_code(
    c: &EmitContext,
    s: Code,
    sc: Scope,
    callee: ValueId,
    args: Seq<ValueId>,
    signature: usize,
) -> Option<(Code, Val)> {
    match (sc.value(callee), sc.all_values(args)) {
        (Some(closure), Some(vals)) => Some(
            (
                s.slot(LType::Closure)
                    .i(Inst::Store(LType::Closure, closure, s.sv(0)))
                    .i(Inst::Field(LType::Closure, s.sv(0), 0))
                    .i(Inst::Field(LType::Closure, s.sv(0), 1))
                    .i(Inst::Load(LType::Ptr, s.v(1)))
                    .i(Inst::Load(LType::Ptr, s.v(2)))
                    .i(
                        Inst::Call(
                            Callee::Pointer(s.v(3), signature),
                            Args::Cons(s.v(4), Box::new(args_from(vals, 0))),
                        ),
                    ),
                if c.result_of(signature) == IRType::Unit {
                    num(0)
                } else {
                    s.v(5)
                },
            ),
        ),
        _ => None,
    }
}

/// What is said of a call through a closure that cannot be emitted.
pub open spec fn call_closure_fault(sc: Scope, callee: ValueId, args: Seq<ValueId>) -> Seq<char> {
    if sc.value(callee) is None {
        undefined_value(callee)
    } else {
        sc.missing_value(args, 0)
    }
}

/// Emits a call through a closure value.
pub fn emit_call_closure(
    c: &EmitContext,
    f: &mut Body,
    fr: &Frame,
    callee: ValueId,
    args: &Vec<ValueId>,
    signature: usize,
) -> (r: Result<Val, LlvmError>)
    ensures
        match r {
            Ok(v) => call_closure_code(c, old(f)@, fr@, callee, args@, signature) == Some(
                (final(f)@, v),
            ),
            Err(e) => call_closure_code(c, old(f)@, fr@, callee, args@, signature) is None && says(
                e,
                call_closure_fault(fr@, callee, args@),
            ),
        },
{
    let closure = fr.lookup(callee)?;
    let vals = fr.lookup_all(args)?;
    let slot = f.slot(LType::Closure);
    f.ins(Inst::Store(LType::Closure, closure, slot));
    let fn_slot = f.ins(Inst::Field(LType::Closure, slot, 0));
    let env_slot = f.ins(Inst::Field(LType::Closure, slot, 1));
    let code = f.ins(Inst::Load(LType::Ptr, fn_slot));
    let env = f.ins(Inst::Load(LType::Ptr, env_slot));
    let result = f.ins(
        Inst::Call(Callee::Pointer(code, signature), Args::Cons(env, Box::new(args_of(&vals)))),
    );
    if c.signature_return(signature) == IRType::Unit {
        Ok(num(0))
    } else {
        Ok(result)
    }
}

/// Reading a capture out of an environment.
pub open spec fn capture_slot_code(s: Code, env: usize, ptr: Val, index: usize, ty: IRType) -> Code {
    s.i(Inst::Field(LType::Env(env), ptr, (index + CLOSURE_ENV_HEADER_FIELDS) as usize)).i(
        Inst::Load(value_type(ty), s.v(0)),
    )
}

/// Reads a capture out of an environment.
pub fn load_capture_slot(f: &mut Body, env: usize, ptr: Val, index: usize, ty: IRType) -> (r: Val)
    requires
        index <= MAX_CAPTURES,
    ensures
        final(f)@ == capture_slot_code(old(f)@, env, ptr, index, ty),
        r == old(f)@.v(1),
{
    let field: usize = index + CLOSURE_ENV_HEADER_FIELDS;
    let slot = f.ins(Inst::Field(LType::Env(env), ptr, field));
    f.ins(Inst::Load(value_basic_type(ty), slot))
}

/// A capture of the closure body that is being emitted. There is none
/// outside a closure body, and none of type `Unit`.
pub open spec fn load_capture_code(s: Code, sc: Scope, index: usize, ty: IRType) -> Option<
    (Code, Val),
> {
    match sc.env {
        Some(env) => if index <= MAX_CAPTURES && ty != IRType::Unit {
            Some((capture_slot_code(s, env, Val::Param(0), index, ty), s.v(1)))
        } else {
            None
        },
        None => None,
    }
}

/// What is said of a capture that cannot be read.
pub open spec fn capture_fault(ty: IRType) -> Seq<char> {
    if ty == IRType::Unit {
        no_unit()
    } else {
        "capture read outside a closure body"@
    }
}

/// What is said of a capture of another closure that cannot be read.
pub open spec fn capture_of_fault(sc: Scope, closure: ValueId, ty: IRType) -> Seq<char> {
    if ty != IRType::Unit && sc.value(closure) is None {
        undefined_value(closure)
    } else {
        capture_fault(ty)
    }
}

fn no_capture() -> (r: LlvmError)
    ensures
        says(r, "capture read outside a closure body"@),
{
    LlvmError::Codegen("capture read outside a closure body".to_owned())
}

/// Emits the read of a capture of the current closure body.
pub fn emit_load_capture(f: &mut Body, fr: &Frame, index: usize, ty: IRType) -> (r: Result<
    Val,
    LlvmError,
>)
    ensures
        match r {
            Ok(v) => load_capture_code(old(f)@, fr@, index, ty) == Some((final(f)@, v)),
            Err(e) => load_capture_code(old(f)@, fr@, index, ty) is None && says(e, capture_fault(ty)),
        },
{
    let _ty = ir_basic_type(ty)?;
    match fr.env {
        Some(env) => if index <= MAX_CAPTURES {
            Ok(load_capture_slot(f, env, Val::Param(0), index, ty))
        } else {
            Err(no_capture())
        },
        None => Err(no_capture()),
    }
}

/// A capture of another closure of the current body's site.
pub open spec fn load_capture_of_code(
    s: Code,
    sc: Scope,
    closure: ValueId,
    index: usize,
    ty: IRType,
) -> Option<(Code, Val)> {
    match (sc.env, sc.value(closure)) {
        (Some(env), Some(value)) => if index <= MAX_CAPTURES && ty != IRType::Unit {
            Some((capture_slot_code(env_ptr_code(s, value), env, s.v(2), index, ty), s.v(4)))
        } else {
            None
        },
        _ => None,
    }
}

/// Emits the read of a capture of another closure of the same site.
pub fn emit_load_capture_of(
    f: &mut Body,
    fr: &Frame,
    closure: ValueId,
    index: usize,
    ty: IRType,
) -> (r: Result<Val, LlvmError>)
    ensures
        match r {
            Ok(v) => load_capture_of_code(old(f)@, fr@, closure, index, ty) == Some((final(f)@, v)),
            Err(e) => load_capture_of_code(old(f)@, fr@, closure, index, ty) is None && says(
                e,
                capture_of_fault(fr@, closure, ty),
            ),
        },
{
    let _ty = ir_basic_type(ty)?;
    let value = fr.lookup(closure)?;
    match fr.env {
        Some(env) => if index <= MAX_CAPTURES {
            let ptr = load_closure_env_ptr(f, value);
            Ok(load_capture_slot(f, env, ptr, index, ty))
        } else {
            Err(no_capture())
        },
        None => Err(no_capture()),
    }
}

/// One owner of a closure's environment fewer.
pub open spec fn drop_closure_code(s: Code, closure: Val) -> Code {
    env_ptr_code(s, closure).i(call(Rt::ClosureRcDec, a1(s.v(2))))
}

/// Drops a closure value. The runtime runs the environment's drop glue
/// when its count comes to zero.
pub fn emit_drop_closure_value(f: &mut Body, closure: Val)
    ensures
        final(f)@ == drop_closure_code(old(f)@, closure),
{
    let env = load_closure_env_ptr(f, closure);
    f.ins(call(Rt::ClosureRcDec, a1(env)));
}

/// The deep copies of the first `k` captures of a copied environment.
pub open spec fn copy_captures_code(c: &EmitContext, s: Code, env: usize, ptr: Val, k: nat) -> Code
    decreases k,
{
    if k == 0 {
        s
    } else {
        let t = copy_captures_code(c, s, env, ptr, (k - 1) as nat);
        deep_copy_in_slot_code(
            c,
            t.i(Inst::Field(LType::Env(env), ptr, (k - 1 + CLOSURE_ENV_HEADER_FIELDS) as usize)),
            c.captures(env)[k - 1],
            t.v(0),
        )
    }
}

/// The body of an environment's deep-copy glue: the whole environment is
/// copied, its count starts at one, and every capture is severed from the
/// source.
pub open spec fn copy_closure_glue_code(c: &EmitContext, s: Code, env: usize) -> Code {
    let size = num(c.abi(LType::Env(env)));
    copy_captures_code(
        c,
        s.i(call(Rt::Malloc, a1(size)))
            .i(call(Rt::Memcpy, a3(s.v(0), Val::Param(0), size)))
            .i(Inst::Store(LType::I64, num(1), s.v(0))),
        env,
        s.v(0),
        c.captures(env).len(),
    ).i(Inst::Ret(LType::Ptr, s.v(0)))
}

/// Emits the body of an environment's deep-copy glue.
pub fn emit_copy_closure_glue_body(c: &EmitContext, f: &mut Body, env: usize) -> (r: Result<
    (),
    LlvmError,
>)
    ensures
        match r {
            Ok(()) => c.captures(env).len() <= MAX_CAPTURES && final(f)@ == copy_closure_glue_code(
                c,
                old(f)@,
                env,
            ),
            Err(e) => c.captures(env).len() > MAX_CAPTURES && says(
                e,
                "environment layout holds too many captures"@,
            ) && final(f)@ == old(f)@,
        },
{
    let n: usize = c.capture_len(env);
    if n > MAX_CAPTURES {
        return Err(LlvmError::Codegen("environment layout holds too many captures".to_owned()));
    }
    let size = num(c.abi_size(LType::Env(env)));
    let new_env = f.ins(call(Rt::Malloc, a1(size)));
    f.ins(call(Rt::Memcpy, a3(new_env, Val::Param(0), size)));
    f.ins(Inst::Store(LType::I64, num(1), new_env));
    let ghost h = f@;
    let mut i: usize = 0;
    while i < n
        invariant
            i <= n,
            n == c.captures(env).len(),
            n <= MAX_CAPTURES,
            f@ == copy_captures_code(c, h, env, new_env, i as nat),
        decreases n - i,
    {
        let field: usize = i + CLOSURE_ENV_HEADER_FIELDS;
        let slot = f.ins(Inst::Field(LType::Env(env), new_env, field));
        deep_copy_in_slot(c, f, c.capture_type(env, i), slot);
        i = i + 1;
    }
    f.ins(Inst::Ret(LType::Ptr, new_env));
    Ok(())
}

} // verus!
