//! What closures carry and what calls through them get.

use vstd::prelude::*;
use crate::ctx::{ClosureSite, EmitContext};
use crate::emit::arithmetic::about_to;
use crate::emit::closures::{
    call_closure_code, capture_slot_code, env_alloc_code, env_captures_code, fat_pointer_code, load_capture_code,
    make_closure_code,
};
use crate::emit::frame::Scope;
use crate::emit::meaning::{arguments_in_order, values_in_order, worth, worths};
use crate::emit::process::{entry_wrapper_code, first_call_in, spawn_code};
use crate::emit::variants::{agree, known_by, stored_parts};
use crate::intrinsics::messaging::glue_given;
use crate::ir::{IRFunction, IRSymbol, IRType, ValueId};
use crate::intrinsics::process::{drop_glue_code, serialize_code};
use crate::llvm::{
    a1, a4, args_from, call, num, start, Args, Callee, CastOp, Code, Inst, LType, Val,
};
use crate::memory::{
    address_in_range, byte_limit, byte_limit_is_power, in_memory, number, store_is_read_back, store_spares_numbers,
    stored, Memory,
};
use crate::runtime::Rt;
use crate::semantics::{
    addresses, arguments, arrives, booted, byte_count, bytes_of, calls, converts, field_at, inserts,
    loads, read, seek_finds, slots_stand, stops, stores, Machine, Outside,
};
use crate::types::value_type;

verus! {

/// The two words of a closure lie in it: its code, then its environment.
pub open spec fn closure_fits(o: Outside) -> bool {
    &&& byte_count(o, LType::Closure) == 16
    &&& (o.offsets)(LType::Closure, 0) == 0
    &&& (o.offsets)(LType::Closure, 1) == 8
}

/// A word of a closure value.
pub open spec fn closure_word(x: int, k: int) -> int {
    number(bytes_of(x, 16), 8 * k, 8)
}

proof fn limits()
    ensures
        byte_limit(8) == 0x1_0000_0000_0000_0000,
        byte_limit(4) == 0x1_0000_0000,
{
    byte_limit_is_power(8);
    byte_limit_is_power(4);
    vstd::arithmetic::power2::lemma2_to64();
}

/// A closure value is made of its code and its environment.
pub proof fn closure_holds_its_words(m: Machine, code: Code, o: Outside, s: Code, fun: Val, env: Val) -> (l: Machine)
    requires
        about_to(m, code, s, fat_pointer_code(s, fun, env)),
        slots_stand(o, code),
        closure_fits(o),
        known_by(fun, s.log.len() as int),
        known_by(env, s.log.len() as int),
        0 <= read(o, m.results, fun) <= u64::MAX,
        0 <= read(o, m.results, env) <= u64::MAX,
    ensures
        m.leads_to(code, o, l),
        l.at == s.log.len() + 5,
        l.returned is None,
        agree(l.results, m.results, s.log.len() as int),
        closure_word(read(o, l.results, s.v(4)), 0) == read(o, m.results, fun),
        closure_word(read(o, l.results, s.v(4)), 1) == read(o, m.results, env),
{
    let t = fat_pointer_code(s, fun, env);
    let n = s.log.len() as int;
    let p = (o.values)(s.sv(0));
    let (f, e) = (read(o, m.results, fun), read(o, m.results, env));
    limits();
    assert(code.log[n] == t.log[n] && code.log[n + 1] == t.log[n + 1] && code.log[n + 2] == t.log[n + 2]
        && code.log[n + 3] == t.log[n + 3] && code.log[n + 4] == t.log[n + 4]);
    assert(code.slots[s.slots.len() as int] == t.slots[s.slots.len() as int]);
    addresses(m, code, o, LType::Closure, s.sv(0), 0);
    let m1 = m.step(code, o);
    address_in_range(p);
    stores(m1, code, o, LType::Ptr, fun, s.v(0));
    let m2 = m1.step(code, o);
    addresses(m2, code, o, LType::Closure, s.sv(0), 1);
    let m3 = m2.step(code, o);
    address_in_range(p + 8);
    stores(m3, code, o, LType::Ptr, env, s.v(2));
    let m4 = m3.step(code, o);
    loads(m4, code, o, LType::Closure, s.sv(0));
    let l = m4.step(code, o);
    store_is_read_back(m.memory, p, f, 8);
    store_spares_numbers(m2.memory, p + 8, e, 8, p, 8);
    store_is_read_back(m2.memory, p + 8, e, 8);
    crate::emit::variants::parts_of_number(m4.memory, p, 16, 0, 8);
    crate::emit::variants::parts_of_number(m4.memory, p, 16, 8, 8);
    l
}

/// The run is about to call through a closure, with these arguments.
pub open spec fn calling_closure(code: Code, o: Outside, address: int, given: Seq<int>) -> spec_fn(
    Machine,
) -> bool {
    |l: Machine|
        {
            &&& l.at < code.log.len()
            &&& l.returned is None
            &&& code.log[l.at as int].inst matches Inst::Call(Callee::Pointer(target, _), args) && read(
                o,
                l.results,
                target,
            ) == address && arguments(o, l.results, args) == given
        }
}

/// A call through a closure goes to its code, with its environment in
/// front of the arguments.
pub proof fn closure_call_passes_the_environment(
    m: Machine,
    code: Code,
    o: Outside,
    c: &EmitContext,
    s: Code,
    sc: Scope,
    callee: ValueId,
    args: Seq<ValueId>,
    signature: usize,
)
    requires
        call_closure_code(c, s, sc, callee, args, signature) is Some,
        about_to(m, code, s, (call_closure_code(c, s, sc, callee, args, signature)->0).0),
        slots_stand(o, code),
        closure_fits(o),
        0 <= worth(o, m, sc, callee) < byte_limit(16),
        forall|i: int| 0 <= i < args.len() ==> known_by(sc.value(#[trigger] args[i])->0, s.log.len() as int),
    ensures
        m.comes_to(
            code,
            o,
            calling_closure(
                code,
                o,
                closure_word(worth(o, m, sc, callee), 0),
                seq![closure_word(worth(o, m, sc, callee), 1)] + worths(o, m, sc, args),
            ),
        ),
{
    let t = (call_closure_code(c, s, sc, callee, args, signature)->0).0;
    let closure = sc.value(callee)->0;
    let vals = sc.all_values(args)->0;
    values_in_order(sc, args, args.len());
    let n = s.log.len() as int;
    let p = (o.values)(s.sv(0));
    let x = worth(o, m, sc, callee);
    assert(code.log[n] == t.log[n] && code.log[n + 1] == t.log[n + 1] && code.log[n + 2] == t.log[n + 2]
        && code.log[n + 3] == t.log[n + 3] && code.log[n + 4] == t.log[n + 4] && code.log[n + 5] == t.log[n
        + 5]);
    assert(code.slots[s.slots.len() as int] == t.slots[s.slots.len() as int]);
    stores(m, code, o, LType::Closure, closure, s.sv(0));
    let m1 = m.step(code, o);
    addresses(m1, code, o, LType::Closure, s.sv(0), 0);
    let m2 = m1.step(code, o);
    address_in_range(p);
    addresses(m2, code, o, LType::Closure, s.sv(0), 1);
    let m3 = m2.step(code, o);
    address_in_range(p + 8);
    loads(m3, code, o, LType::Ptr, s.v(1));
    let m4 = m3.step(code, o);
    loads(m4, code, o, LType::Ptr, s.v(2));
    let m5 = m4.step(code, o);
    stored_parts(m.memory, p, x, 16, 0, 8);
    stored_parts(m.memory, p, x, 16, 8, 8);
    let given = seq![closure_word(x, 1)] + worths(o, m, sc, args);
    arguments_in_order(o, m5.results, vals, 0);
    assert(arguments(o, m5.results, args_from(vals, 0)) =~= worths(o, m, sc, args)) by {
        assert forall|i: int| 0 <= i < vals.len() implies read(o, m5.results, vals[i]) == worth(
            o,
            m,
            sc,
            args[i],
        ) by {
            assert(sc.value(args[i]) == Some(vals[i]));
            assert(known_by(sc.value(args[i])->0, n));
        }
    }
    assert(arguments(
        o,
        m5.results,
        Args::Cons(s.v(4), Box::new(args_from(vals, 0))),
    ) =~= given);
    arrives(m5, code, o, calling_closure(code, o, closure_word(x, 0), given));
}

/// A capture in an environment: captures lie behind the five header
/// fields, in their order.
pub open spec fn capture_in(o: Outside, memory: Memory, env: usize, p: int, index: int, ty: IRType) -> int {
    number(memory, field_at(o, LType::Env(env), p, (index + 5) as usize), byte_count(o, value_type(ty)))
}

/// A closure body reads the capture at the index out of its environment,
/// which is its first parameter.
pub proof fn capture_is_loaded(m: Machine, code: Code, o: Outside, s: Code, sc: Scope, env: usize, index: usize, ty: IRType) -> (l:
    Machine)
    requires
        sc.env == Some(env),
        load_capture_code(s, sc, index, ty) is Some,
        about_to(m, code, s, (load_capture_code(s, sc, index, ty)->0).0),
    ensures
        m.leads_to(code, o, l),
        l.at == s.log.len() + 2,
        l.returned is None,
        l.memory == m.memory,
        read(o, l.results, (load_capture_code(s, sc, index, ty)->0).1) == capture_in(
            o,
            m.memory,
            env,
            (o.values)(Val::Param(0)),
            index as int,
            ty,
        ),
{
    let t = capture_slot_code(s, env, Val::Param(0), index, ty);
    let n = s.log.len() as int;
    assert(code.log[n] == t.log[n] && code.log[n + 1] == t.log[n + 1]);
    addresses(m, code, o, LType::Env(env), Val::Param(0), (index + 5) as usize);
    let m1 = m.step(code, o);
    loads(m1, code, o, value_type(ty), s.v(0));
    m1.step(code, o)
}

/// The captures of an environment lie in it, apart.
pub open spec fn env_fits(c: &EmitContext, o: Outside, env: usize, p: int) -> bool {
    let ty = LType::Env(env);
    let slots = c.captures(env);
    &&& in_memory(p, byte_count(o, ty) as int)
    &&& forall|k: int|
        0 <= k < slots.len() ==> 0 <= #[trigger] (o.offsets)(ty, (k + 5) as usize) && (o.offsets)(
            ty,
            (k + 5) as usize,
        ) + byte_count(o, value_type(slots[k])) <= byte_count(o, ty)
    &&& forall|j: int, k: int|
        0 <= j < k < slots.len() ==> #[trigger] (o.offsets)(ty, (j + 5) as usize) + byte_count(
            o,
            value_type(slots[j]),
        ) <= #[trigger] (o.offsets)(ty, (k + 5) as usize)
}

proof fn captures_stay(c: &EmitContext, s: Code, env: usize, ptr: Val, vals: Seq<Val>, k: nat)
    ensures
        ({
            let t = env_captures_code(c, s, env, ptr, vals, k);
            t == Code { log: t.log, ..s } && t.log.len() == s.log.len() + 2 * k
        }),
    decreases k,
{
    if k > 0 {
        captures_stay(c, s, env, ptr, vals, (k - 1) as nat);
    }
}

/// Making a closure stores each captured value where the closure body
/// reads the capture at the same index.
pub proof fn captures_are_stored(
    m: Machine,
    code: Code,
    o: Outside,
    c: &EmitContext,
    s: Code,
    env: usize,
    ptr: Val,
    vals: Seq<Val>,
    k: nat,
) -> (l: Machine)
    requires
        k <= vals.len() == c.captures(env).len(),
        vals.len() + 5 <= usize::MAX,
        env_fits(c, o, env, read(o, m.results, ptr)),
        known_by(ptr, s.log.len() as int),
        ({
            let t = env_captures_code(c, s, env, ptr, vals, k);
            &&& t.log.len() < code.log.len() <= usize::MAX
            &&& forall|i: int| 0 <= i < t.log.len() ==> #[trigger] code.log[i] == t.log[i]
            &&& code.log[t.log.len() as int].block == s.cur
        }),
        m.at == s.log.len(),
        m.returned is None,
        forall|i: int|
            0 <= i < k ==> {
                &&& known_by(#[trigger] vals[i], s.log.len() as int)
                &&& 0 <= read(o, m.results, vals[i]) < byte_limit(byte_count(o, value_type(c.captures(env)[i])))
            },
    ensures
        m.leads_to(code, o, l),
        l.at == s.log.len() + 2 * k,
        l.returned is None,
        agree(l.results, m.results, s.log.len() as int),
        forall|i: int|
            0 <= i < k ==> capture_in(
                o,
                l.memory,
                env,
                read(o, m.results, ptr),
                i,
                c.captures(env)[i],
            ) == read(o, m.results, #[trigger] vals[i]),
    decreases k,
{
    if k == 0 {
        m
    } else {
        let ty = LType::Env(env);
        let t = env_captures_code(c, s, env, ptr, vals, k);
        let u = env_captures_code(c, s, env, ptr, vals, (k - 1) as nat);
        let et = value_type(c.captures(env)[k - 1]);
        let n = u.log.len() as int;
        let field = (k - 1 + 5) as usize;
        captures_stay(c, s, env, ptr, vals, (k - 1) as nat);
        assert(t == u.i(Inst::Field(ty, ptr, field)).i(Inst::Store(et, vals[k - 1], u.v(0))));
        assert(code.log[n] == t.log[n] && code.log[n + 1] == t.log[n + 1]);
        assert forall|i: int| 0 <= i < u.log.len() implies #[trigger] code.log[i] == u.log[i] by {
            assert(code.log[i] == t.log[i]);
        }
        let m1 = captures_are_stored(m, code, o, c, s, env, ptr, vals, (k - 1) as nat);
        let p = read(o, m.results, ptr);
        assert(read(o, m1.results, ptr) == p) by {
            if let Val::At(j) = ptr {
                assert(m1.results[j] == m.results[j]);
            }
        }
        addresses(m1, code, o, ty, ptr, field);
        let m2 = m1.step(code, o);
        let at = (o.offsets)(ty, (k - 1 + 5) as usize);
        assert(0 <= at && at + byte_count(o, et) <= byte_count(o, ty));
        address_in_range(p + at);
        let v = vals[k - 1];
        let x = read(o, m.results, v);
        assert(known_by(v, s.log.len() as int));
        assert(read(o, m2.results, v) == x) by {
            if let Val::At(j) = v {
                assert(m1.results[j] == m.results[j]);
            }
        }
        stores(m2, code, o, et, v, u.v(0));
        let l = m2.step(code, o);
        assert(l.memory == stored(m1.memory, p + at, x, byte_count(o, et)));
        store_is_read_back(m1.memory, p + at, x, byte_count(o, et));
        assert forall|i: int| 0 <= i < k implies capture_in(o, l.memory, env, p, i, c.captures(env)[i])
            == read(o, m.results, #[trigger] vals[i]) by {
            let q = (o.offsets)(ty, (i + 5) as usize);
            assert(0 <= q && q + byte_count(o, value_type(c.captures(env)[i])) <= byte_count(o, ty));
            address_in_range(p + q);
            if i < k - 1 {
                assert(q + byte_count(o, value_type(c.captures(env)[i])) <= (o.offsets)(
                    ty,
                    (k - 1 + 5) as usize,
                ));
                assert(capture_in(o, m1.memory, env, p, i, c.captures(env)[i]) == read(o, m.results, vals[i]));
                store_spares_numbers(
                    m1.memory,
                    p + at,
                    x,
                    byte_count(o, et),
                    p + q,
                    byte_count(o, value_type(c.captures(env)[i])),
                );
            }
        }
        assert forall|j: usize| j < s.log.len() implies #[trigger] l.results[j] == m.results[j] by {
            assert(m1.results[j] == m.results[j]);
        }
        l
    }
}

/// A spawn hands the runtime the wrapper, the config and its size, and the
/// pid that the runtime answers is what the `Ref` holds.
pub proof fn spawn_hands_over_the_config(
    m: Machine,
    code: Code,
    o: Outside,
    c: &EmitContext,
    s: Code,
    config: Val,
    config_type: IRType,
    ref_type: IRSymbol,
    wrapper: IRSymbol,
) -> (l: Machine)
    requires
        spawn_code(c, s, config, config_type, ref_type, wrapper) is Some,
        about_to(m, code, s, (spawn_code(c, s, config, config_type, ref_type, wrapper)->0).0),
        slots_stand(o, code),
        known_by(config, s.log.len() as int),
        0 <= read(o, m.results, config) < byte_limit(byte_count(o, value_type(config_type))),
    ensures
        ({
            let k = c.function_of(wrapper)->0;
            let p = (o.values)(s.sv(0));
            let size = byte_count(o, value_type(config_type));
            let ready = stored(m.memory, p, read(o, m.results, config), size);
            let v = (spawn_code(c, s, config, config_type, ref_type, wrapper)->0).1;
            &&& c.function_of(wrapper) is Some
            &&& number(ready, p, size) == read(o, m.results, config)
            &&& m.leads_to(code, o, l)
            &&& l.returned is None
            &&& l.parts_of(v)[0] == (o.calls)(
                Callee::Runtime(Rt::RtSpawn),
                seq![
                    (o.values)(Val::Function(k)),
                    p,
                    c.abi(value_type(config_type)) as int,
                    glue_given(c, o, config_type),
                ],
                ready,
            ).0
        }),
{
    let k = c.function_of(wrapper)->0;
    let lt = value_type(config_type);
    let (g, glue) = drop_glue_code(c, serialize_code(s, config_type, config), config_type);
    let args = a4(Val::Function(k), s.sv(0), num(c.abi(lt)), glue);
    let t = g.i(call(Rt::RtSpawn, args)).i(
        Inst::Insert(LType::Struct(ref_type), Val::Undef, LType::I64, g.v(0), 0),
    );
    let n = s.log.len() as int;
    let p = (o.values)(s.sv(0));
    assert(code.log[n] == t.log[n] && code.log[n + 1] == t.log[n + 1] && code.log[n + 2] == t.log[n + 2]);
    assert(code.slots[s.slots.len() as int] == t.slots[s.slots.len() as int]);
    stores(m, code, o, lt, config, s.sv(0));
    let m1 = m.step(code, o);
    store_is_read_back(m.memory, p, read(o, m.results, config), byte_count(o, lt));
    let given = seq![
        (o.values)(Val::Function(k)),
        p,
        c.abi(lt) as int,
        glue_given(c, o, config_type),
    ];
    assert(arguments(o, m1.results, args) =~= given) by {
        reveal_with_fuel(arguments, 6);
    }
    calls(m1, code, o, Callee::Runtime(Rt::RtSpawn), args);
    let m2 = m1.step(code, o);
    inserts(m2, code, o, LType::Struct(ref_type), Val::Undef, LType::I64, g.v(0), 0);
    m2.step(code, o)
}

/// The wrapper of the first process calls the process body with the config
/// behind its parameter, and leaves what the body returns as the exit
/// code, in 32 bits.
pub proof fn exit_code_is_left(c: &EmitContext, o: Outside, memory: Memory, function: &IRFunction, k: usize)
    requires
        entry_wrapper_code(c, start(), function) is Some,
        c.function_of(first_call_in(function.blocks@, 0)->0) == Some(k),
        in_memory((o.values)(Val::ExitCode), 4),
        ({
            let config = number(
                memory,
                (o.values)(Val::Param(0)),
                byte_count(o, value_type(function.params@[0].ty)),
            );
            0 <= (o.calls)(Callee::Function(k), seq![config], memory).0 <= u64::MAX
        }),
    ensures
        ({
            let code = entry_wrapper_code(c, start(), function)->0;
            let config = number(
                memory,
                (o.values)(Val::Param(0)),
                byte_count(o, value_type(function.params@[0].ty)),
            );
            let answer = (o.calls)(Callee::Function(k), seq![config], memory).0;
            booted(code, memory).comes_to(
                code,
                o,
                |l: Machine|
                    l.returned is Some && number(l.memory, (o.values)(Val::ExitCode), 4) == answer
                        % 0x1_0000_0000,
            )
        }),
{
    let s = start();
    let code = entry_wrapper_code(c, s, function)->0;
    let pt = value_type(function.params@[0].ty);
    let config = number(memory, (o.values)(Val::Param(0)), byte_count(o, pt));
    let answer = (o.calls)(Callee::Function(k), seq![config], memory).0;
    limits();
    seek_finds(code.log, 0, 0, 0);
    let m0 = booted(code, memory);
    loads(m0, code, o, pt, Val::Param(0));
    let m1 = m0.step(code, o);
    assert(arguments(o, m1.results, a1(Val::At(0))) =~= seq![config]) by {
        reveal_with_fuel(arguments, 3);
    }
    calls(m1, code, o, Callee::Function(k), a1(Val::At(0)));
    let m2 = m1.step(code, o);
    converts(m2, code, o, CastOp::Trunc, LType::I64, Val::At(1), LType::I32);
    let m3 = m2.step(code, o);
    vstd::arithmetic::div_mod::lemma_mod_bound(answer, 0x1_0000_0000);
    stores(m3, code, o, LType::I32, Val::At(2), Val::ExitCode);
    let m4 = m3.step(code, o);
    store_is_read_back(m3.memory, (o.values)(Val::ExitCode), answer % 0x1_0000_0000, 4);
    stops(m4, code, o);
    arrives(
        m4.step(code, o),
        code,
        o,
        |l: Machine|
            l.returned is Some && number(l.memory, (o.values)(Val::ExitCode), 4) == answer % 0x1_0000_0000,
    );
}

/// A closure without captures is made of the address of its body and its
/// static environment.
pub proof fn closure_without_captures(
    m: Machine,
    code: Code,
    o: Outside,
    c: &EmitContext,
    s: Code,
    sc: Scope,
    body: IRSymbol,
    k: usize,
) -> (l: Machine)
    requires
        c.function_of(body) == Some(k),
        make_closure_code(c, s, sc, body, seq![]) is Some,
        about_to(m, code, s, (make_closure_code(c, s, sc, body, seq![])->0).0),
        slots_stand(o, code),
        closure_fits(o),
        0 <= (o.values)(Val::Function(k)) <= u64::MAX,
        0 <= (o.values)(Val::StaticEnv(body)) <= u64::MAX,
    ensures
        m.leads_to(code, o, l),
        l.returned is None,
        ({
            let x = read(o, l.results, (make_closure_code(c, s, sc, body, seq![])->0).1);
            &&& closure_word(x, 0) == (o.values)(Val::Function(k))
            &&& closure_word(x, 1) == (o.values)(Val::StaticEnv(body))
        }),
{
    let none: Seq<Val> = Seq::empty();
    assert(sc.all_values(seq![]) == Some(none));
    closure_holds_its_words(m, code, o, s, Val::Function(k), Val::StaticEnv(body))
}

/// A closure with captures is made of the address of its body and the
/// environment that was allocated for it.
pub proof fn closure_with_captures(
    m: Machine,
    code: Code,
    o: Outside,
    c: &EmitContext,
    s: Code,
    sc: Scope,
    body: IRSymbol,
    captures: Seq<ValueId>,
    k: usize,
    site: ClosureSite,
) -> (l: Machine)
    requires
        captures.len() > 0,
        c.function_of(body) == Some(k),
        c.site_of(body) == Some(site),
        make_closure_code(c, s, sc, body, captures) is Some,
        ({
            let e = env_alloc_code(c, s, site, sc.all_values(captures)->0);
            &&& about_to(m, code, e, (make_closure_code(c, s, sc, body, captures)->0).0)
            &&& s.log.len() < e.log.len()
        }),
        slots_stand(o, code),
        closure_fits(o),
        0 <= (o.values)(Val::Function(k)) <= u64::MAX,
        0 <= read(o, m.results, s.v(0)) <= u64::MAX,
    ensures
        m.leads_to(code, o, l),
        l.returned is None,
        ({
            let x = read(o, l.results, (make_closure_code(c, s, sc, body, captures)->0).1);
            &&& closure_word(x, 0) == (o.values)(Val::Function(k))
            &&& closure_word(x, 1) == read(o, m.results, s.v(0))
        }),
{
    values_in_order(sc, captures, captures.len());
    let e = env_alloc_code(c, s, site, sc.all_values(captures)->0);
    closure_holds_its_words(m, code, o, e, Val::Function(k), s.v(0))
}

} // verus!
