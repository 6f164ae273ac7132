//! Functions: declaring one gives it its name and signature, defining
//! one emits its body. Every function is declared before any is defined,
//! so that calls resolve whatever their order.

use std::collections::BTreeMap;

use vstd::prelude::*;
use vstd::string::StringExecFns;
use crate::ctx::{Declared, EmitContext, GlueKind};
use crate::emit::blocks::{
    block_code, block_fault, close_block, close_block_code, declare_block_param_phis, emit_block,
    holds, phi_fault, phis_code, reachable, reachable_blocks, rows, terminator_fault,
};
use crate::emit::closures::{copy_closure_glue_code, emit_copy_closure_glue_body, MAX_CAPTURES};
use crate::emit::collection_glue::{
    collection_fault, collection_glue_code, collection_ok, emit_collection_glue_body,
};
use crate::emit::frame::{undefined_block, Frame, Loop, Scope, TcoFrame};
use crate::emit::instruction::{emit_instructions, instructions_code, instructions_fault};
use crate::emit::process::{
    emit_process_entry_wrapper_body, emit_spawn_wrapper_body, entry_wrapper_code,
    entry_wrapper_fault, spawn_wrapper_code, wrapper_fault,
};
use crate::error::{says, LlvmError};
use crate::intrinsics::dispatch::{emit_intrinsic_body, intrinsic_code, intrinsic_fault, intrinsic_ok};
use crate::ir::{
    FunctionKind, IRBasicBlock, IRBlockId, IRFunction, IRFunctionParam, IRInstruction, IRLocalId,
    IRSourceDef, IRTerminator, IRType, ValueId,
};
use crate::llvm::{start, Body, Code, Inst, LType, Val};
use crate::text::{concat3, same};
use crate::types::{value_basic_type, value_type};

verus! {

/// The part of a dotted name behind its last dot.
pub open spec fn last_segment(name: Seq<char>) -> Seq<char>
    decreases name.len(),
{
    if name.len() == 0 {
        name
    } else if name.last() == '.' {
        Seq::empty()
    } else {
        last_segment(name.drop_last()).push(name.last())
    }
}

/// The part of a dotted name behind its last dot.
pub fn bare_name(name: &str) -> (r: String)
    ensures
        r@ == last_segment(name@),
{
    let n: usize = name.unicode_len();
    let mut i: usize = n;
    assert(name@.subrange(0, n as int) =~= name@);
    assert(name@.subrange(n as int, n as int) =~= Seq::empty());
    assert(last_segment(name@.subrange(0, n as int)) + name@.subrange(n as int, n as int)
        =~= last_segment(name@));
    while i > 0
        invariant
            i <= n,
            n == name@.len(),
            last_segment(name@) == last_segment(name@.subrange(0, i as int)) + name@.subrange(
                i as int,
                n as int,
            ),
        decreases i,
    {
        let ghost head = name@.subrange(0, i as int);
        assert(head.last() == name@[i - 1]);
        assert(head.drop_last() =~= name@.subrange(0, i - 1));
        if name.get_char(i - 1) == '.' {
            assert(last_segment(head) =~= Seq::empty());
            assert(last_segment(name@) =~= name@.subrange(i as int, n as int));
            return name.substring_char(i, n).to_owned();
        }
        assert(name@.subrange(i - 1, n as int) =~= seq![name@[i - 1]] + name@.subrange(
            i as int,
            n as int,
        ));
        assert(last_segment(head) == last_segment(head.drop_last()).push(head.last()));
        assert(last_segment(name@) =~= last_segment(name@.subrange(0, i - 1)) + name@.subrange(
            i - 1,
            n as int,
        ));
        i = i - 1;
    }
    assert(name@.subrange(0, 0) =~= Seq::empty());
    assert(last_segment(name@) =~= name@);
    name.to_owned()
}

/// The name a function links under: a foreign one is known by its link
/// name, or else by the last segment of its own, any other by its mangled
/// name.
pub open spec fn linked_name(c: &EmitContext, function: &IRFunction) -> Seq<char> {
    match function.kind {
        FunctionKind::Foreign(attrs) => match attrs.link_name {
            Some(name) => name@,
            None => last_segment(c.mangled(function.symbol)),
        },
        _ => c.mangled(function.symbol),
    }
}

/// The name a function links under.
pub fn llvm_name(c: &EmitContext, function: &IRFunction) -> (r: String)
    ensures
        r@ == linked_name(c, function),
{
    match &function.kind {
        FunctionKind::Foreign(attrs) => match &attrs.link_name {
            Some(name) => name.as_str().to_owned(),
            None => bare_name(c.name_of(function.symbol)),
        },
        _ => c.name_of(function.symbol).to_owned(),
    }
}

/// The LLVM types of some parameters.
pub open spec fn param_types(params: Seq<IRFunctionParam>) -> Seq<LType> {
    Seq::new(params.len(), |i: int| value_type(params[i].ty))
}

/// What a function returns. `Unit` is no value.
pub open spec fn return_type(ty: IRType) -> LType {
    if ty == IRType::Unit {
        LType::Void
    } else {
        value_type(ty)
    }
}

/// The signature of a function: its parameters and what it returns.
pub open spec fn signature_of(function: &IRFunction) -> (Seq<LType>, LType) {
    match function.kind {
        FunctionKind::Closure { .. } | FunctionKind::DropClosureGlue { .. } => (
            seq![LType::Ptr] + param_types(function.params@),
            return_type(function.return_type),
        ),
        FunctionKind::CopyClosureGlue { .. } => (seq![LType::Ptr], LType::Ptr),
        FunctionKind::SpawnWrapper | FunctionKind::ProcessEntryWrapper => (
            seq![LType::Ptr],
            LType::Void,
        ),
        _ => (param_types(function.params@), return_type(function.return_type)),
    }
}

/// What a function returns.
pub fn function_return(ty: IRType) -> (r: LType)
    ensures
        r == return_type(ty),
{
    if ty == IRType::Unit {
        LType::Void
    } else {
        value_basic_type(ty)
    }
}

/// The signature of a function. A closure body takes its environment in
/// front of its parameters; environment copies and process wrappers have
/// the shapes that the runtime calls.
pub fn function_signature(function: &IRFunction) -> (r: (Vec<LType>, LType))
    ensures
        (r.0@, r.1) == signature_of(function),
{
    let mut params: Vec<LType> = Vec::new();
    match &function.kind {
        FunctionKind::CopyClosureGlue { env: _ } => {
            params.push(LType::Ptr);
            assert(params@ =~= seq![LType::Ptr]);
            return (params, LType::Ptr);
        },
        FunctionKind::SpawnWrapper | FunctionKind::ProcessEntryWrapper => {
            params.push(LType::Ptr);
            assert(params@ =~= seq![LType::Ptr]);
            return (params, LType::Void);
        },
        FunctionKind::Closure { env: _ } | FunctionKind::DropClosureGlue { env: _ } => {
            params.push(LType::Ptr);
        },
        _ => {},
    }
    let ghost front = params@;
    let mut i: usize = 0;
    while i < function.params.len()
        invariant
            i <= function.params.len(),
            params@ == front + param_types(function.params@).subrange(0, i as int),
        decreases function.params.len() - i,
    {
        params.push(value_basic_type(function.params[i].ty));
        i = i + 1;
        assert(params@ =~= front + param_types(function.params@).subrange(0, i as int));
    }
    assert(params@ =~= signature_of(function).0);
    (params, function_return(function.return_type))
}

/// The first function that is declared under a name.
pub open spec fn first_linked(declared: Seq<Declared>, name: Seq<char>, i: nat) -> Option<int>
    decreases declared.len() - i,
{
    if i >= declared.len() {
        None
    } else if declared[i as int].name@ == name {
        Some(i as int)
    } else {
        first_linked(declared, name, i + 1)
    }
}

/// The place of the first function that is declared under a name.
pub fn find_linked(declared: &Vec<Declared>, name: &str) -> (r: Option<usize>)
    ensures
        match r {
            Some(i) => i < declared@.len() && first_linked(declared@, name@, 0) == Some(i as int),
            None => first_linked(declared@, name@, 0) is None,
        },
{
    let mut i: usize = 0;
    while i < declared.len()
        invariant
            i <= declared.len(),
            first_linked(declared@, name@, 0) == first_linked(declared@, name@, i as nat),
        decreases declared.len() - i,
    {
        if same(declared[i].name.as_str(), name) {
            return Some(i);
        }
        i = i + 1;
    }
    None
}

/// The function is foreign code.
pub open spec fn is_foreign(function: &IRFunction) -> bool {
    function.kind is Foreign
}

/// `d` declares `function` beside what is declared already. A name that
/// is taken keeps its signature.
pub open spec fn declares(
    c: &EmitContext,
    declared: Seq<Declared>,
    function: &IRFunction,
    d: Declared,
) -> bool {
    &&& d.symbol == function.symbol
    &&& d.name@ == linked_name(c, function)
    &&& (d.params@, d.ret) == match first_linked(declared, linked_name(c, function), 0) {
        Some(i) => (declared[i].params@, declared[i].ret),
        None => signature_of(function),
    }
    &&& d.foreign_float == (is_foreign(function) && (function.return_type == IRType::Float32
        || function.return_type == IRType::Float64))
    &&& d.defined == !is_foreign(function)
}

fn copy_types(types: &Vec<LType>) -> (r: Vec<LType>)
    ensures
        r@ == types@,
{
    let mut out: Vec<LType> = Vec::new();
    let mut i: usize = 0;
    while i < types.len()
        invariant
            i <= types.len(),
            out@ == types@.subrange(0, i as int),
        decreases types.len() - i,
    {
        out.push(types[i]);
        i = i + 1;
        assert(out@ =~= types@.subrange(0, i as int));
    }
    assert(out@ =~= types@);
    out
}

/// Declares a function: its symbol now resolves to it.
pub fn declare_function(c: &mut EmitContext, function: &IRFunction) -> (r: usize)
    ensures
        r == old(c).declared@.len(),
        final(c).declared@.len() == r + 1,
        final(c).declared@.subrange(0, r as int) == old(c).declared@,
        declares(old(c), old(c).declared@, function, final(c).declared@[r as int]),
        *final(c) == (EmitContext { declared: final(c).declared, ..*old(c) }),
        final(c).function_of(function.symbol) == Some(r),
{
    let name = llvm_name(c, function);
    let (params, ret) = match find_linked(&c.declared, name.as_str()) {
        Some(i) => (copy_types(&c.declared[i].params), c.declared[i].ret),
        None => function_signature(function),
    };
    let foreign = match &function.kind {
        FunctionKind::Foreign(_) => true,
        _ => false,
    };
    let float = match function.return_type {
        IRType::Float32 | IRType::Float64 => true,
        _ => false,
    };
    let r: usize = c.declared.len();
    c.declared.push(
        Declared {
            symbol: function.symbol,
            name,
            params,
            ret,
            foreign_float: foreign && float,
            defined: !foreign,
        },
    );
    assert(c.declared@.subrange(0, r as int) =~= old(c).declared@);
    r
}

/// Where a function's debug information points: only functions that a
/// user wrote have a place of their own.
pub open spec fn debug_place(function: &IRFunction) -> Option<IRSourceDef> {
    match function.kind {
        FunctionKind::Regular => function.def_location,
        _ => None,
    }
}

/// Where a function's debug information points.
pub fn debuggable_def_location(function: &IRFunction) -> (r: Option<&IRSourceDef>)
    ensures
        match r {
            Some(d) => debug_place(function) == Some(*d),
            None => debug_place(function) is None,
        },
{
    match &function.kind {
        FunctionKind::Regular => match &function.def_location {
            Some(d) => Some(d),
            None => None,
        },
        _ => None,
    }
}

/// The blocks of the first `k` IR blocks, by id: they are numbered in
/// order.
pub open spec fn block_numbers(blocks: Seq<IRBasicBlock>, k: nat) -> Map<u32, usize>
    decreases k,
{
    if k == 0 {
        Map::empty()
    } else {
        block_numbers(blocks, (k - 1) as nat).insert(blocks[k - 1].id.0, (k - 1) as usize)
    }
}

/// A body with the first `k` IR blocks, each under its label. The first one
/// is the entry block.
pub open spec fn blocks_made(blocks: Seq<IRBasicBlock>, k: nat) -> Code
    decreases k,
{
    if k == 0 {
        start()
    } else if k == 1 {
        start().entry(blocks[0].label@)
    } else {
        blocks_made(blocks, (k - 1) as nat).word(blocks[k - 1].label@)
    }
}

/// Makes one block for every IR block. The first one is the entry block.
pub fn declare_blocks(f: &mut Body, blocks: &Vec<IRBasicBlock>) -> (r: BTreeMap<u32, usize>)
    requires
        old(f)@ == start(),
    ensures
        r@ == block_numbers(blocks@, blocks@.len()),
        final(f)@ == blocks_made(blocks@, blocks@.len()),
{
    let mut numbers: BTreeMap<u32, usize> = BTreeMap::new();
    let mut i: usize = 0;
    while i < blocks.len()
        invariant
            i <= blocks.len(),
            numbers@ == block_numbers(blocks@, i as nat),
            f@ == blocks_made(blocks@, i as nat),
            f@.blocks > 0,
        decreases blocks.len() - i,
    {
        if i > 0 {
            let _number: usize = f.block(blocks[i].label.as_str());
        } else {
            f.name_entry(blocks[i].label.as_str());
        }
        numbers.insert(blocks[i].id.0, i);
        i = i + 1;
    }
    numbers
}

/// The operands of the first `k` parameters.
pub open spec fn seeded(params: Seq<IRFunctionParam>, offset: nat, k: nat) -> Map<u32, Val>
    decreases k,
{
    if k == 0 {
        Map::empty()
    } else {
        seeded(params, offset, (k - 1) as nat).insert(
            params[k - 1].id.0,
            Val::Param((k - 1 + offset) as usize),
        )
    }
}

/// Binds every parameter. The parameters of a closure body stand behind
/// its environment.
pub fn seed_params(function: &IRFunction, is_closure_body: bool) -> (r: BTreeMap<u32, Val>)
    ensures
        r@ == seeded(
            function.params@,
            if is_closure_body {
                1
            } else {
                0
            },
            function.params@.len(),
        ),
{
    let mut values: BTreeMap<u32, Val> = BTreeMap::new();
    let offset: usize = if is_closure_body {
        1
    } else {
        0
    };
    let mut i: usize = 0;
    while i < function.params.len()
        invariant
            i <= function.params.len(),
            offset <= 1,
            values@ == seeded(function.params@, offset as nat, i as nat),
        decreases function.params.len() - i,
    {
        values.insert(function.params[i].id.0, Val::Param(i + offset));
        i = i + 1;
    }
    values
}

/// Some block ends in a tail call.
pub open spec fn tail_calls(blocks: Seq<IRBasicBlock>) -> bool {
    exists|i: int| 0 <= i < blocks.len() && (#[trigger] blocks[i]).terminator is TailCall
}

/// Whether some block ends in a tail call.
pub fn function_has_tail_call(blocks: &Vec<IRBasicBlock>) -> (r: bool)
    ensures
        r == tail_calls(blocks@),
{
    let mut i: usize = 0;
    while i < blocks.len()
        invariant
            i <= blocks.len(),
            forall|j: int| 0 <= j < i ==> !((#[trigger] blocks@[j]).terminator is TailCall),
        decreases blocks.len() - i,
    {
        match &blocks[i].terminator {
            IRTerminator::TailCall { args: _ } => {
                assert(blocks@[i as int].terminator is TailCall);
                return true;
            },
            _ => {},
        }
        i = i + 1;
    }
    false
}

/// The locals of the first `k` parameters.
pub open spec fn param_locals(params: Seq<IRFunctionParam>) -> Seq<(IRLocalId, IRType)> {
    Seq::new(params.len(), |i: int| (params[i].local_id, params[i].ty))
}

/// One of the slots is the local's.
pub open spec fn is_param_local(slots: Seq<(IRLocalId, IRType)>, local: IRLocalId) -> bool {
    exists|i: int| 0 <= i < slots.len() && (#[trigger] slots[i]).0 == local
}

/// The slots of the locals that the first `k` instructions declare: the
/// code, the scope, and the locals that are no parameter's. None where a
/// local is declared twice.
pub open spec fn slots_of_instructions(
    s: Code,
    sc: Scope,
    found: Seq<(IRLocalId, IRType)>,
    params: Seq<(IRLocalId, IRType)>,
    instructions: Seq<IRInstruction>,
    k: nat,
) -> Option<(Code, Scope, Seq<(IRLocalId, IRType)>)>
    decreases k,
{
    if k == 0 {
        Some((s, sc, found))
    } else {
        match slots_of_instructions(s, sc, found, params, instructions, (k - 1) as nat) {
            None => None,
            Some((t, tc, more)) => match instructions[k - 1] {
                IRInstruction::LocalDecl { local, ty } => if tc.local(local) is Some {
                    None
                } else {
                    Some(
                        (
                            t.slot(value_type(ty)),
                            tc.place(local, t.sv(0)),
                            if is_param_local(params, local) {
                                more
                            } else {
                                more.push((local, ty))
                            },
                        ),
                    )
                },
                _ => Some((t, tc, more)),
            },
        }
    }
}

/// The slots of the locals that the first `k` blocks declare.
pub open spec fn slots_of_blocks(
    s: Code,
    sc: Scope,
    params: Seq<(IRLocalId, IRType)>,
    blocks: Seq<IRBasicBlock>,
    k: nat,
) -> Option<(Code, Scope, Seq<(IRLocalId, IRType)>)>
    decreases k,
{
    if k == 0 {
        Some((s, sc, Seq::empty()))
    } else {
        match slots_of_blocks(s, sc, params, blocks, (k - 1) as nat) {
            None => None,
            Some((t, tc, found)) => slots_of_instructions(
                t,
                tc,
                found,
                params,
                blocks[k - 1].instructions@,
                blocks[k - 1].instructions@.len(),
            ),
        }
    }
}

proof fn failed_slots_stay(
    s: Code,
    sc: Scope,
    found: Seq<(IRLocalId, IRType)>,
    params: Seq<(IRLocalId, IRType)>,
    instructions: Seq<IRInstruction>,
    n: nat,
    m: nat,
)
    requires
        n <= m,
        slots_of_instructions(s, sc, found, params, instructions, n) is None,
    ensures
        slots_of_instructions(s, sc, found, params, instructions, m) is None,
    decreases m - n,
{
    if n < m {
        failed_slots_stay(s, sc, found, params, instructions, n, (m - 1) as nat);
    }
}

proof fn failed_block_slots_stay(
    s: Code,
    sc: Scope,
    params: Seq<(IRLocalId, IRType)>,
    blocks: Seq<IRBasicBlock>,
    n: nat,
    m: nat,
)
    requires
        n <= m,
        slots_of_blocks(s, sc, params, blocks, n) is None,
    ensures
        slots_of_blocks(s, sc, params, blocks, m) is None,
    decreases m - n,
{
    if n < m {
        failed_block_slots_stay(s, sc, params, blocks, n, (m - 1) as nat);
    }
}

fn among(slots: &Vec<(IRLocalId, IRType)>, local: IRLocalId) -> (r: bool)
    ensures
        r == is_param_local(slots@, local),
{
    let mut i: usize = 0;
    while i < slots.len()
        invariant
            i <= slots.len(),
            forall|j: int| 0 <= j < i ==> (#[trigger] slots@[j]).0 != local,
        decreases slots.len() - i,
    {
        if slots[i].0 == local {
            assert(slots@[i as int].0 == local);
            return true;
        }
        i = i + 1;
    }
    false
}

/// Places every local before any block is emitted, so that a tail call
/// can zero the slot of a local that a later block declares. Gives the
/// locals that are no parameter's.
pub fn preregister_local_slots(
    f: &mut Body,
    fr: &mut Frame,
    params: &Vec<(IRLocalId, IRType)>,
    blocks: &Vec<IRBasicBlock>,
) -> (r: Result<Vec<(IRLocalId, IRType)>, LlvmError>)
    ensures
        match r {
            Ok(found) => slots_of_blocks(
                old(f)@,
                old(fr)@,
                params@,
                blocks@,
                blocks@.len(),
            ) == Some((final(f)@, final(fr)@, found@)),
            Err(e) => slots_of_blocks(old(f)@, old(fr)@, params@, blocks@, blocks@.len()) is None
                && says(e, "local slot registered twice"@),
        },
{
    let mut found: Vec<(IRLocalId, IRType)> = Vec::new();
    assert(found@ =~= Seq::empty());
    let mut i: usize = 0;
    while i < blocks.len()
        invariant
            i <= blocks.len(),
            slots_of_blocks(old(f)@, old(fr)@, params@, blocks@, i as nat) == Some(
                (f@, fr@, found@),
            ),
        decreases blocks.len() - i,
    {
        let instructions = &blocks[i].instructions;
        let ghost (t, tc, before) = (f@, fr@, found@);
        let mut j: usize = 0;
        while j < instructions.len()
            invariant
                i < blocks.len(),
                instructions@ == blocks@[i as int].instructions@,
                j <= instructions.len(),
                slots_of_blocks(old(f)@, old(fr)@, params@, blocks@, i as nat) == Some(
                    (t, tc, before),
                ),
                slots_of_instructions(t, tc, before, params@, instructions@, j as nat) == Some(
                    (f@, fr@, found@),
                ),
            decreases instructions.len() - j,
        {
            match &instructions[j] {
                IRInstruction::LocalDecl { local, ty } => {
                    if fr.try_local_slot(*local).is_some() {
                        proof {
                            failed_slots_stay(
                                t,
                                tc,
                                before,
                                params@,
                                instructions@,
                                (j + 1) as nat,
                                instructions@.len(),
                            );
                            failed_block_slots_stay(
                                old(f)@,
                                old(fr)@,
                                params@,
                                blocks@,
                                (i + 1) as nat,
                                blocks@.len(),
                            );
                        }
                        return Err(
                            LlvmError::Codegen("local slot registered twice".to_owned()),
                        );
                    }
                    let slot = f.slot(value_basic_type(*ty));
                    fr.register_local_slot(*local, slot);
                    if !among(params, *local) {
                        found.push((*local, *ty));
                    }
                },
                _ => {},
            }
            j = j + 1;
        }
        i = i + 1;
    }
    Ok(found)
}

/// What an instruction acquires for a parameter: the value that holds an
/// owned copy of it.
pub open spec fn acquired(instruction: IRInstruction, param: ValueId) -> Option<ValueId> {
    match instruction {
        IRInstruction::Clone { dest, source, ty } => if source == param {
            Some(dest)
        } else {
            None
        },
        IRInstruction::Call { args, callee, dest } => if args@.len() == 1 && args@[0] == param {
            Some(dest)
        } else {
            None
        },
        _ => None,
    }
}

/// Whether an instruction acquires a parameter into its slot: a clone of
/// it, or a call whose sole argument it is.
pub fn is_param_acquire(instruction: &IRInstruction, param: ValueId) -> (r: Option<ValueId>)
    ensures
        r == acquired(*instruction, param),
{
    match instruction {
        IRInstruction::Clone { dest, source, ty: _ } => if *source == param {
            Some(*dest)
        } else {
            None
        },
        IRInstruction::Call { args, callee: _, dest } => if args.len() == 1 && args[0] == param {
            Some(*dest)
        } else {
            None
        },
        _ => None,
    }
}

/// Where the promotion of one parameter ends that begins at `at`: its
/// local is declared, its value may be acquired, and the result is
/// written to the local.
pub open spec fn promoted(instructions: Seq<IRInstruction>, at: nat, param: IRFunctionParam) -> Option<
    nat,
> {
    if at < instructions.len() && (instructions[at as int] matches IRInstruction::LocalDecl { local, .. }
        && local == param.local_id) {
        let held = if at + 1 < instructions.len() {
            acquired(instructions[at as int + 1], param.id)
        } else {
            None
        };
        let write = if held is Some {
            at + 2
        } else {
            at + 1
        };
        let stored = match held {
            Some(v) => v,
            None => param.id,
        };
        if write < instructions.len() && (instructions[write as int]
            matches IRInstruction::LocalWrite { local, value, .. } && local == param.local_id
            && value == stored) {
            Some((write + 1) as nat)
        } else {
            None
        }
    } else {
        None
    }
}

/// Where the promotion of the first `k` parameters ends.
pub open spec fn promotion_end(
    instructions: Seq<IRInstruction>,
    params: Seq<IRFunctionParam>,
    k: nat,
) -> Option<nat>
    decreases k,
{
    if k == 0 {
        Some(0)
    } else {
        match promotion_end(instructions, params, (k - 1) as nat) {
            Some(at) => promoted(instructions, at, params[k - 1]),
            None => None,
        }
    }
}

proof fn failed_promotion_stays(
    instructions: Seq<IRInstruction>,
    params: Seq<IRFunctionParam>,
    n: nat,
    m: nat,
)
    requires
        n <= m,
        promotion_end(instructions, params, n) is None,
    ensures
        promotion_end(instructions, params, m) is None,
    decreases m - n,
{
    if n < m {
        failed_promotion_stays(instructions, params, n, (m - 1) as nat);
    }
}

/// Where the promotion of one parameter ends.
fn promote(instructions: &Vec<IRInstruction>, at: usize, param: IRFunctionParam) -> (r: Option<usize>)
    ensures
        match r {
            Some(end) => promoted(instructions@, at as nat, param) == Some(end as nat) && end
                <= instructions@.len(),
            None => promoted(instructions@, at as nat, param) is None,
        },
{
    if at >= instructions.len() {
        return None;
    }
    match &instructions[at] {
        IRInstruction::LocalDecl { local, ty: _ } => if *local != param.local_id {
            return None;
        },
        _ => {
            return None;
        },
    }
    let mut write: usize = at + 1;
    let mut stored = param.id;
    if write < instructions.len() {
        match is_param_acquire(&instructions[write], param.id) {
            Some(dest) => {
                stored = dest;
                write = write + 1;
            },
            None => {},
        }
    }
    if write >= instructions.len() {
        return None;
    }
    match &instructions[write] {
        IRInstruction::LocalWrite { local, ty: _, value } => if *local == param.local_id && *value
            == stored {
            Some(write + 1)
        } else {
            None
        },
        _ => None,
    }
}

/// How many leading instructions of the entry block promote the
/// parameters into their slots: nothing where they do not.
pub fn promotion_prefix_len(function: &IRFunction, instructions: &Vec<IRInstruction>) -> (r: Option<
    usize,
>)
    ensures
        match r {
            Some(n) => n <= instructions@.len() && promotion_end(
                instructions@,
                function.params@,
                function.params@.len(),
            ) == Some(n as nat),
            None => promotion_end(instructions@, function.params@, function.params@.len()) is None,
        },
{
    let mut at: usize = 0;
    let mut i: usize = 0;
    while i < function.params.len()
        invariant
            i <= function.params.len(),
            at <= instructions@.len(),
            promotion_end(instructions@, function.params@, i as nat) == Some(at as nat),
        decreases function.params.len() - i,
    {
        match promote(instructions, at, function.params[i]) {
            Some(end) => {
                at = end;
            },
            None => {
                proof {
                    failed_promotion_stays(
                        instructions@,
                        function.params@,
                        (i + 1) as nat,
                        function.params@.len(),
                    );
                }
                return None;
            },
        }
        i = i + 1;
    }
    Some(at)
}

/// The entry block of a function with tail calls: the promotion of the
/// parameters runs once, then the loop header holds the rest.
pub open spec fn tco_entry_code(
    c: &EmitContext,
    s: Code,
    sc: Scope,
    phis: Seq<Seq<Option<Val>>>,
    function: &IRFunction,
    block: IRBasicBlock,
) -> Option<(Code, Scope)> {
    let all = block.instructions@;
    match (promotion_end(all, function.params@, function.params@.len()), sc.tco) {
        (Some(n), Some(frame)) => match instructions_code(c, s, sc, all, 0, n) {
            Some((t, tc)) => match instructions_code(
                c,
                t.i(Inst::Br(frame.loop_block)).at(frame.loop_block),
                tc,
                all,
                n,
                (all.len() - n) as nat,
            ) {
                Some((u, uc)) => match close_block_code(u, uc, phis, block.terminator) {
                    Some(w) => Some((w, uc)),
                    None => None,
                },
                None => None,
            },
            None => None,
        },
        _ => None,
    }
}

/// What is said of an entry block that cannot be emitted so.
pub open spec fn tco_entry_fault(
    c: &EmitContext,
    s: Code,
    sc: Scope,
    phis: Seq<Seq<Option<Val>>>,
    function: &IRFunction,
    block: IRBasicBlock,
    e: LlvmError,
) -> bool {
    let all = block.instructions@;
    match (promotion_end(all, function.params@, function.params@.len()), sc.tco) {
        (None, _) => says(
            e,
            "entry block of `"@ + c.mangled(function.symbol) + "` does not promote its parameters"@,
        ),
        (_, None) => says(e, "tail-call split without its frame"@),
        (Some(n), Some(frame)) => match instructions_code(c, s, sc, all, 0, n) {
            None => instructions_fault(c, s, sc, all, 0, n, e),
            Some((t, tc)) => {
                let h = t.i(Inst::Br(frame.loop_block)).at(frame.loop_block);
                let k = (all.len() - n) as nat;
                match instructions_code(c, h, tc, all, n, k) {
                    None => instructions_fault(c, h, tc, all, n, k, e),
                    Some((u, uc)) => says(e, terminator_fault(u, uc, phis, block.terminator)),
                }
            },
        },
    }
}

/// Emits the entry block of a function with tail calls.
pub fn emit_entry_with_tco_split(
    c: &EmitContext,
    f: &mut Body,
    fr: &mut Frame,
    phis: &Vec<Vec<Option<Val>>>,
    function: &IRFunction,
    block: &IRBasicBlock,
) -> (r: Result<(), LlvmError>)
    ensures
        match r {
            Ok(()) => tco_entry_code(c, old(f)@, old(fr)@, rows(phis@), function, *block) == Some(
                (final(f)@, final(fr)@),
            ),
            Err(e) => tco_entry_code(c, old(f)@, old(fr)@, rows(phis@), function, *block) is None
                && e is Codegen && tco_entry_fault(
                c,
                old(f)@,
                old(fr)@,
                rows(phis@),
                function,
                *block,
                e,
            ),
        },
{
    let n: usize = match promotion_prefix_len(function, &block.instructions) {
        Some(n) => n,
        None => {
            return Err(
                LlvmError::Codegen(
                    concat3(
                        "entry block of `",
                        c.name_of(function.symbol),
                        "` does not promote its parameters",
                    ),
                ),
            );
        },
    };
    let loop_block: usize = match &fr.tco {
        Some(frame) => frame.loop_block,
        None => {
            return Err(LlvmError::Codegen("tail-call split without its frame".to_owned()));
        },
    };
    let len: usize = block.instructions.len();
    emit_instructions(c, f, fr, &block.instructions, 0, n)?;
    f.ins(Inst::Br(loop_block));
    f.at(loop_block);
    emit_instructions(c, f, fr, &block.instructions, n, len)?;
    close_block(f, fr, phis, &block.terminator)
}

/// The first `k` blocks of a function: what cannot be reached is only
/// marked so.
pub open spec fn blocks_code(
    c: &EmitContext,
    s: Code,
    sc: Scope,
    phis: Seq<Seq<Option<Val>>>,
    function: &IRFunction,
    k: nat,
) -> Option<(Code, Scope)>
    decreases k,
{
    if k == 0 {
        Some((s, sc))
    } else {
        let blocks = function.blocks@;
        let block = blocks[k - 1];
        match blocks_code(c, s, sc, phis, function, (k - 1) as nat) {
            None => None,
            Some((t, tc)) => match tc.block(block.id) {
                None => None,
                Some(b) => if !reachable(blocks, block.id) {
                    Some((t.at(b).i(Inst::Unreachable), tc))
                } else if tail_calls(blocks) && block.id == blocks[0].id {
                    tco_entry_code(c, t.at(b), tc, phis, function, block)
                } else {
                    block_code(c, t.at(b), tc, phis, block)
                },
            },
        }
    }
}

proof fn failed_blocks_stay(
    c: &EmitContext,
    s: Code,
    sc: Scope,
    phis: Seq<Seq<Option<Val>>>,
    function: &IRFunction,
    n: nat,
    m: nat,
)
    requires
        n <= m,
        blocks_code(c, s, sc, phis, function, n) is None,
    ensures
        blocks_code(c, s, sc, phis, function, m) is None,
    decreases m - n,
{
    if n < m {
        failed_blocks_stay(c, s, sc, phis, function, n, (m - 1) as nat);
    }
}

/// What is said of a block of a function that cannot be emitted.
pub open spec fn one_fault(
    c: &EmitContext,
    s: Code,
    sc: Scope,
    phis: Seq<Seq<Option<Val>>>,
    function: &IRFunction,
    i: int,
    e: LlvmError,
) -> bool {
    let blocks = function.blocks@;
    match sc.block(blocks[i].id) {
        None => says(e, undefined_block(blocks[i].id)),
        Some(b) => if tail_calls(blocks) && blocks[i].id == blocks[0].id {
            tco_entry_fault(c, s.at(b), sc, phis, function, blocks[i], e)
        } else {
            block_fault(c, s.at(b), sc, phis, blocks[i], e)
        },
    }
}

/// The blocks before the `k`-th can be emitted, and it cannot.
pub open spec fn blocks_fail_at(
    c: &EmitContext,
    s: Code,
    sc: Scope,
    phis: Seq<Seq<Option<Val>>>,
    function: &IRFunction,
    k: nat,
    e: LlvmError,
) -> bool {
    k < function.blocks@.len() && match blocks_code(c, s, sc, phis, function, k) {
        Some((t, tc)) => blocks_code(c, s, sc, phis, function, k + 1) is None && one_fault(
            c,
            t,
            tc,
            phis,
            function,
            k as int,
            e,
        ),
        None => false,
    }
}

/// What is said of the first block of a function that cannot be emitted.
pub open spec fn blocks_fault(
    c: &EmitContext,
    s: Code,
    sc: Scope,
    phis: Seq<Seq<Option<Val>>>,
    function: &IRFunction,
    e: LlvmError,
) -> bool {
    exists|k: nat| #[trigger] blocks_fail_at(c, s, sc, phis, function, k, e)
}

/// Emits every block of a function.
pub fn emit_blocks(
    c: &EmitContext,
    f: &mut Body,
    fr: &mut Frame,
    phis: &Vec<Vec<Option<Val>>>,
    function: &IRFunction,
) -> (r: Result<(), LlvmError>)
    ensures
        match r {
            Ok(()) => blocks_code(
                c,
                old(f)@,
                old(fr)@,
                rows(phis@),
                function,
                function.blocks@.len(),
            ) == Some((final(f)@, final(fr)@)),
            Err(e) => blocks_code(
                c,
                old(f)@,
                old(fr)@,
                rows(phis@),
                function,
                function.blocks@.len(),
            ) is None && e is Codegen && blocks_fault(
                c,
                old(f)@,
                old(fr)@,
                rows(phis@),
                function,
                e,
            ),
        },
{
    let blocks = &function.blocks;
    let live = reachable_blocks(blocks);
    let tco_active = function_has_tail_call(blocks);
    let mut i: usize = 0;
    while i < blocks.len()
        invariant
            i <= blocks.len(),
            blocks@ == function.blocks@,
            tco_active == tail_calls(blocks@),
            forall|id: IRBlockId| #[trigger]
                live@.contains(id) <==> reachable(blocks@, id),
            blocks_code(c, old(f)@, old(fr)@, rows(phis@), function, i as nat) == Some((f@, fr@)),
        decreases blocks.len() - i,
    {
        let done = emit_one(c, f, fr, phis, function, i, &live, tco_active);
        match done {
            Ok(()) => {},
            Err(e) => {
                proof {
                    assert(blocks_fail_at(
                        c,
                        old(f)@,
                        old(fr)@,
                        rows(phis@),
                        function,
                        i as nat,
                        e,
                    ));
                    failed_blocks_stay(
                        c,
                        old(f)@,
                        old(fr)@,
                        rows(phis@),
                        function,
                        (i + 1) as nat,
                        blocks@.len(),
                    );
                }
                return Err(e);
            },
        }
        i = i + 1;
    }
    Ok(())
}

/// Emits the `i`-th block of a function.
fn emit_one(
    c: &EmitContext,
    f: &mut Body,
    fr: &mut Frame,
    phis: &Vec<Vec<Option<Val>>>,
    function: &IRFunction,
    i: usize,
    live: &Vec<IRBlockId>,
    tco_active: bool,
) -> (r: Result<(), LlvmError>)
    requires
        i < function.blocks@.len(),
        tco_active == tail_calls(function.blocks@),
        forall|id: IRBlockId| #[trigger]
            live@.contains(id) <==> reachable(function.blocks@, id),
    ensures
        ({
            let blocks = function.blocks@;
            let block = blocks[i as int];
            let outcome = match old(fr)@.block(block.id) {
                None => None,
                Some(b) => if !reachable(blocks, block.id) {
                    Some((old(f)@.at(b).i(Inst::Unreachable), old(fr)@))
                } else if tail_calls(blocks) && block.id == blocks[0].id {
                    tco_entry_code(c, old(f)@.at(b), old(fr)@, rows(phis@), function, block)
                } else {
                    block_code(c, old(f)@.at(b), old(fr)@, rows(phis@), block)
                },
            };
            match r {
                Ok(()) => outcome == Some((final(f)@, final(fr)@)),
                Err(e) => outcome is None && e is Codegen && one_fault(
                    c,
                    old(f)@,
                    old(fr)@,
                    rows(phis@),
                    function,
                    i as int,
                    e,
                ),
            }
        }),
{
    let block = &function.blocks[i];
    let b: usize = fr.lookup_block(block.id)?;
    f.at(b);
    if !holds(live, block.id) {
        f.ins(Inst::Unreachable);
        Ok(())
    } else if tco_active && block.id == function.blocks[0].id {
        emit_entry_with_tco_split(c, f, fr, phis, function, block)
    } else {
        emit_block(c, f, fr, phis, block)
    }
}

/// The frame a body starts from.
pub open spec fn entry_scope(function: &IRFunction, env: Option<usize>) -> Scope {
    Scope {
        values: seeded(
            function.params@,
            if env is Some {
                1
            } else {
                0
            },
            function.params@.len(),
        ),
        locals: Map::empty(),
        blocks: block_numbers(function.blocks@, function.blocks@.len()),
        env: env,
        tco: None,
        ret: return_type(function.return_type),
    }
}

/// The body of a function that comes with blocks: the phis first, then,
/// where it calls itself in tail position, the loop header and the slots,
/// then the blocks in order.
pub open spec fn regular_code(c: &EmitContext, function: &IRFunction, env: Option<usize>) -> Option<
    Code,
> {
    let blocks = function.blocks@;
    let s = blocks_made(blocks, blocks.len());
    match phis_code(s, entry_scope(function, env), blocks, blocks.len()) {
        None => None,
        Some((t, tc, phis)) => {
            let ready = if tail_calls(blocks) {
                match slots_of_blocks(
                    t.word("tco_loop"@).at(0),
                    tc,
                    param_locals(function.params@),
                    blocks,
                    blocks.len(),
                ) {
                    Some((u, uc, found)) => Some(
                        (
                            u,
                            Scope {
                                tco: Some(
                                    Loop {
                                        body_slots: found,
                                        loop_block: t.b(0),
                                        param_slots: param_locals(function.params@),
                                    },
                                ),
                                ..uc
                            },
                        ),
                    ),
                    None => None,
                }
            } else {
                Some((t, tc))
            };
            match ready {
                None => None,
                Some((u, uc)) => match blocks_code(c, u, uc, phis, function, blocks.len()) {
                    Some((w, _)) => Some(w),
                    None => None,
                },
            }
        },
    }
}

fn locals_of(params: &Vec<IRFunctionParam>) -> (r: Vec<(IRLocalId, IRType)>)
    ensures
        r@ == param_locals(params@),
{
    let mut out: Vec<(IRLocalId, IRType)> = Vec::new();
    let mut i: usize = 0;
    while i < params.len()
        invariant
            i <= params.len(),
            out@ == param_locals(params@).subrange(0, i as int),
        decreases params.len() - i,
    {
        out.push((params[i].local_id, params[i].ty));
        i = i + 1;
        assert(out@ =~= param_locals(params@).subrange(0, i as int));
    }
    assert(out@ =~= param_locals(params@));
    out
}

/// What is said of a function with blocks that cannot be emitted.
pub open spec fn regular_fault(c: &EmitContext, function: &IRFunction, env: Option<usize>, e: LlvmError) -> bool {
    let blocks = function.blocks@;
    let s = blocks_made(blocks, blocks.len());
    match phis_code(s, entry_scope(function, env), blocks, blocks.len()) {
        None => phi_fault(s, entry_scope(function, env), blocks, e),
        Some((t, tc, phis)) => if tail_calls(blocks) {
            let params = param_locals(function.params@);
            match slots_of_blocks(t.word("tco_loop"@).at(0), tc, params, blocks, blocks.len()) {
                None => says(e, "local slot registered twice"@),
                Some((u, uc, found)) => {
                    let frame = Loop { body_slots: found, loop_block: t.b(0), param_slots: params };
                    blocks_fault(c, u, Scope { tco: Some(frame), ..uc }, phis, function, e)
                },
            }
        } else {
            blocks_fault(c, t, tc, phis, function, e)
        },
    }
}

/// Emits the body of a function that comes with blocks.
pub fn define_regular(c: &EmitContext, function: &IRFunction, env: Option<usize>) -> (r: Result<
    Body,
    LlvmError,
>)
    ensures
        match r {
            Ok(b) => regular_code(c, function, env) == Some(b@),
            Err(e) => regular_code(c, function, env) is None && e is Codegen && regular_fault(
                c,
                function,
                env,
                e,
            ),
        },
{
    let mut f = Body::new();
    let numbers = declare_blocks(&mut f, &function.blocks);
    let mut fr = Frame {
        values: seed_params(function, env.is_some()),
        locals: BTreeMap::new(),
        blocks: numbers,
        env,
        tco: None,
        ret: function_return(function.return_type),
    };
    assert(fr@ =~= entry_scope(function, env));
    let phis = declare_block_param_phis(&mut f, &mut fr, &function.blocks)?;
    if function_has_tail_call(&function.blocks) {
        let loop_block: usize = f.block("tco_loop");
        f.at(0);
        let params = locals_of(&function.params);
        let body = preregister_local_slots(&mut f, &mut fr, &params, &function.blocks)?;
        let ghost uc = fr@;
        fr.tco = Some(TcoFrame { body_slots: body, loop_block, param_slots: params });
        assert(fr@ =~= (Scope { tco: fr@.tco, ..uc }));
    }
    emit_blocks(c, &mut f, &mut fr, &phis, function)?;
    Ok(f)
}

/// The body of a function, by its kind. Foreign functions have an empty
/// one.
#[verifier::opaque]
pub open spec fn define_code(c: &EmitContext, function: &IRFunction) -> Option<Code> {
    match function.kind {
        FunctionKind::CopyClosureGlue { env } => if c.captures(env).len() <= MAX_CAPTURES {
            Some(copy_closure_glue_code(c, start(), env))
        } else {
            None
        },
        FunctionKind::CloneGlue => glue_code(c, function, GlueKind::Clone),
        FunctionKind::DeepCopyGlue => glue_code(c, function, GlueKind::DeepCopy),
        FunctionKind::DropGlue => glue_code(c, function, GlueKind::Drop),
        FunctionKind::Intrinsic(id) => if intrinsic_ok(c, function, id) {
            Some(intrinsic_code(c, start(), function, id))
        } else {
            None
        },
        FunctionKind::Foreign(_) => Some(start()),
        FunctionKind::SpawnWrapper => spawn_wrapper_code(c, start(), function),
        FunctionKind::ProcessEntryWrapper => entry_wrapper_code(c, start(), function),
        FunctionKind::Closure { env } => regular_code(c, function, Some(env)),
        FunctionKind::DropClosureGlue { env } => regular_code(c, function, Some(env)),
        FunctionKind::Regular => regular_code(c, function, None),
    }
}

/// The body of a glue function: that of a collection is made from its
/// operand, any other comes with blocks.
pub open spec fn glue_code(c: &EmitContext, function: &IRFunction, kind: GlueKind) -> Option<Code> {
    if function.blocks@.len() > 0 {
        regular_code(c, function, None)
    } else if collection_ok(c, function) {
        Some(collection_glue_code(c, start(), function, kind))
    } else {
        None
    }
}

/// What is said of a glue function that cannot be emitted.
pub open spec fn glue_fault(c: &EmitContext, function: &IRFunction, e: LlvmError) -> bool {
    if function.blocks@.len() > 0 {
        regular_fault(c, function, None, e)
    } else {
        says(e, collection_fault(c, function))
    }
}

/// What is said of a function that cannot be emitted, by its kind.
#[verifier::opaque]
pub open spec fn define_fault(c: &EmitContext, function: &IRFunction, e: LlvmError) -> bool {
    match function.kind {
        FunctionKind::CopyClosureGlue { .. } => says(e, "environment layout holds too many captures"@),
        FunctionKind::CloneGlue | FunctionKind::DeepCopyGlue | FunctionKind::DropGlue => glue_fault(
            c,
            function,
            e,
        ),
        FunctionKind::Intrinsic(id) => says(e, intrinsic_fault(c, function, id)),
        FunctionKind::Foreign(_) => false,
        FunctionKind::SpawnWrapper => says(e, wrapper_fault(c, function)),
        FunctionKind::ProcessEntryWrapper => says(e, entry_wrapper_fault(c, start(), function)),
        FunctionKind::Closure { env } => regular_fault(c, function, Some(env), e),
        FunctionKind::DropClosureGlue { env } => regular_fault(c, function, Some(env), e),
        FunctionKind::Regular => regular_fault(c, function, None, e),
    }
}

fn define_glue(c: &EmitContext, function: &IRFunction, kind: GlueKind) -> (r: Result<Body, LlvmError>)
    ensures
        match r {
            Ok(b) => glue_code(c, function, kind) == Some(b@),
            Err(e) => glue_code(c, function, kind) is None && e is Codegen && glue_fault(c, function, e),
        },
{
    if function.blocks.len() > 0 {
        return define_regular(c, function, None);
    }
    let mut f = Body::new();
    emit_collection_glue_body(c, function, &mut f, kind)?;
    Ok(f)
}

/// Emits the body of a function.
pub fn define_function(c: &EmitContext, function: &IRFunction) -> (r: Result<Body, LlvmError>)
    ensures
        match r {
            Ok(b) => define_code(c, function) == Some(b@),
            Err(e) => define_code(c, function) is None && e is Codegen && define_fault(c, function, e),
        },
{
    proof {
        reveal(define_code);
        reveal(define_fault);
    }
    match &function.kind {
        FunctionKind::CopyClosureGlue { env } => {
            let mut f = Body::new();
            emit_copy_closure_glue_body(c, &mut f, *env)?;
            Ok(f)
        },
        FunctionKind::CloneGlue => define_glue(c, function, GlueKind::Clone),
        FunctionKind::DeepCopyGlue => define_glue(c, function, GlueKind::DeepCopy),
        FunctionKind::DropGlue => define_glue(c, function, GlueKind::Drop),
        FunctionKind::Intrinsic(id) => {
            let mut f = Body::new();
            emit_intrinsic_body(c, function, &mut f, *id)?;
            Ok(f)
        },
        FunctionKind::Foreign(_) => Ok(Body::new()),
        FunctionKind::SpawnWrapper => {
            let mut f = Body::new();
            emit_spawn_wrapper_body(c, function, &mut f)?;
            Ok(f)
        },
        FunctionKind::ProcessEntryWrapper => {
            let mut f = Body::new();
            emit_process_entry_wrapper_body(c, function, &mut f)?;
            Ok(f)
        },
        FunctionKind::Closure { env } => define_regular(c, function, Some(*env)),
        FunctionKind::DropClosureGlue { env } => define_regular(c, function, Some(*env)),
        FunctionKind::Regular => define_regular(c, function, None),
    }
}

} // verus!
