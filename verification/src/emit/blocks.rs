//! Emission of basic blocks: which of them are reachable, the phis of
//! their parameters, their instructions and their terminators.

use vstd::prelude::*;
use crate::ctx::EmitContext;
use crate::emit::frame::{undefined_block, undefined_local, undefined_value, Frame, Scope};
use crate::emit::instruction::{emit_instructions, instructions_code, instructions_fault};
use crate::error::{says, LlvmError};
use crate::ir::{
    BlockParam, BranchTarget, IRBasicBlock, IRBlockId, IRInstruction, IRLocalId, IRTerminator,
    IRType, ReceiveAfter, ReceiveArm, ValueId,
};
use crate::llvm::{Body, Code, Inst, LType, Val};
use crate::types::{value_basic_type, value_type};

verus! {

/// The blocks a terminator can go to.
pub open spec fn terminator_targets(t: IRTerminator) -> Seq<IRBlockId> {
    match t {
        IRTerminator::Branch(target) => seq![target.block],
        IRTerminator::CondBranch { cond, else_target, then_target } => seq![
            then_target.block,
            else_target.block,
        ],
        _ => Seq::empty(),
    }
}

/// The bodies of a receive: those of its arms, then the one of `after`.
pub open spec fn receive_targets(after: Option<ReceiveAfter>, arms: Seq<ReceiveArm>) -> Seq<
    IRBlockId,
> {
    let bodies = Seq::new(arms.len(), |i: int| arms[i].body);
    match after {
        Some(timed) => bodies.push(timed.body),
        None => bodies,
    }
}

/// The blocks that the first `k` instructions can go to.
pub open spec fn instruction_targets(instructions: Seq<IRInstruction>, k: nat) -> Seq<IRBlockId>
    decreases k,
{
    if k == 0 {
        Seq::empty()
    } else {
        let rest = instruction_targets(instructions, (k - 1) as nat);
        match instructions[k - 1] {
            IRInstruction::Receive { after, arms } => rest + receive_targets(after, arms@),
            _ => rest,
        }
    }
}

/// The outgoing edges of a block. Most blocks go on through their
/// terminator only; a receive goes to the bodies of its arms.
pub open spec fn successors(block: IRBasicBlock) -> Seq<IRBlockId> {
    terminator_targets(block.terminator) + instruction_targets(
        block.instructions@,
        block.instructions@.len(),
    )
}

/// The place of the first block at or after `i` that has the id.
pub open spec fn first_block(blocks: Seq<IRBasicBlock>, id: IRBlockId, i: nat) -> Option<int>
    decreases blocks.len() - i,
{
    if i >= blocks.len() {
        None
    } else if blocks[i as int].id == id {
        Some(i as int)
    } else {
        first_block(blocks, id, i + 1)
    }
}

/// The function can go from block `a` straight to block `b`.
pub open spec fn edge(blocks: Seq<IRBasicBlock>, a: IRBlockId, b: IRBlockId) -> bool {
    first_block(blocks, a, 0) matches Some(i) && successors(blocks[i]).contains(b)
}

/// A walk along edges that begins at the entry block.
pub open spec fn walk_from_entry(blocks: Seq<IRBasicBlock>, path: Seq<IRBlockId>) -> bool {
    &&& blocks.len() > 0
    &&& path.len() > 0
    &&& path[0] == blocks[0].id
    &&& forall|i: int| 0 <= i < path.len() - 1 ==> edge(blocks, path[i], #[trigger] path[i + 1])
}

/// Some walk from the entry block ends at `id`.
pub open spec fn reachable(blocks: Seq<IRBasicBlock>, id: IRBlockId) -> bool {
    exists|path: Seq<IRBlockId>| #[trigger] walk_from_entry(blocks, path) && path.last() == id
}

/// The blocks a terminator can go to.
pub fn terminator_successors(t: &IRTerminator) -> (r: Vec<IRBlockId>)
    ensures
        r@ == terminator_targets(*t),
{
    let mut out: Vec<IRBlockId> = Vec::new();
    match t {
        IRTerminator::Branch(target) => {
            out.push(target.block);
        },
        IRTerminator::CondBranch { cond: _, else_target, then_target } => {
            out.push(then_target.block);
            out.push(else_target.block);
        },
        _ => {},
    }
    assert(out@ =~= terminator_targets(*t));
    out
}

/// The outgoing edges of a block.
pub fn block_successors(block: &IRBasicBlock) -> (r: Vec<IRBlockId>)
    ensures
        r@ == successors(*block),
{
    let mut out = terminator_successors(&block.terminator);
    let instructions = &block.instructions;
    assert(out@ =~= terminator_targets(block.terminator) + instruction_targets(instructions@, 0));
    let mut i: usize = 0;
    while i < instructions.len()
        invariant
            i <= instructions.len(),
            out@ == terminator_targets(block.terminator) + instruction_targets(
                instructions@,
                i as nat,
            ),
        decreases instructions.len() - i,
    {
        match &instructions[i] {
            IRInstruction::Receive { after, arms } => {
                let ghost before = out@;
                let mut j: usize = 0;
                while j < arms.len()
                    invariant
                        j <= arms.len(),
                        out@ == before + Seq::new(j as nat, |n: int| arms@[n].body),
                    decreases arms.len() - j,
                {
                    out.push(arms[j].body);
                    j = j + 1;
                    assert(out@ =~= before + Seq::new(j as nat, |n: int| arms@[n].body));
                }
                match after {
                    Some(timed) => out.push(timed.body),
                    None => {},
                }
                assert(out@ =~= before + receive_targets(*after, arms@));
                assert(out@ =~= terminator_targets(block.terminator) + instruction_targets(
                    instructions@,
                    (i + 1) as nat,
                ));
            },
            _ => {},
        }
        i = i + 1;
    }
    out
}

/// The place of the first block that has the id.
fn find_block(blocks: &Vec<IRBasicBlock>, id: IRBlockId) -> (r: Option<usize>)
    ensures
        match r {
            Some(i) => i < blocks@.len() && first_block(blocks@, id, 0) == Some(i as int),
            None => first_block(blocks@, id, 0) is None,
        },
{
    let mut i: usize = 0;
    while i < blocks.len()
        invariant
            i <= blocks.len(),
            first_block(blocks@, id, 0) == first_block(blocks@, id, i as nat),
        decreases blocks.len() - i,
    {
        if blocks[i].id == id {
            return Some(i);
        }
        i = i + 1;
    }
    None
}

/// Whether some ids hold one.
pub fn holds(ids: &Vec<IRBlockId>, id: IRBlockId) -> (r: bool)
    ensures
        r == ids@.contains(id),
{
    let mut i: usize = 0;
    while i < ids.len()
        invariant
            i <= ids.len(),
            forall|j: int| 0 <= j < i ==> ids@[j] != id,
        decreases ids.len() - i,
    {
        if ids[i] == id {
            assert(ids@.contains(id));
            return true;
        }
        i = i + 1;
    }
    false
}

/// Ids without repetition are not more than there are ids.
proof fn distinct_ids_are_few(ids: Seq<IRBlockId>)
    requires
        ids.no_duplicates(),
    ensures
        ids.len() <= 0x1_0000_0000,
{
    let nums = ids.map_values(|id: IRBlockId| id.0 as int);
    assert(nums.no_duplicates()) by {
        assert forall|i: int, j: int| 0 <= i < nums.len() && 0 <= j < nums.len() && i != j implies nums[i]
            != nums[j] by {
            assert(ids[i] != ids[j]);
        }
    }
    nums.unique_seq_to_set();
    let all = vstd::set_lib::set_int_range(0, 0x1_0000_0000);
    vstd::set_lib::lemma_int_range(0, 0x1_0000_0000);
    assert(nums.to_set().subset_of(all));
    vstd::set_lib::lemma_len_subset(nums.to_set(), all);
}

/// One more step keeps a block reachable.
proof fn step_is_reachable(blocks: Seq<IRBasicBlock>, a: IRBlockId, b: IRBlockId)
    requires
        reachable(blocks, a),
        edge(blocks, a, b),
    ensures
        reachable(blocks, b),
{
    let path = choose|path: Seq<IRBlockId>| #[trigger]
        walk_from_entry(blocks, path) && path.last() == a;
    let longer = path.push(b);
    assert forall|i: int| 0 <= i < longer.len() - 1 implies edge(
        blocks,
        longer[i],
        #[trigger] longer[i + 1],
    ) by {
        if i < path.len() - 1 {
            assert(longer[i] == path[i]);
            assert(longer[i + 1] == path[i + 1]);
        }
    }
    assert(walk_from_entry(blocks, longer));
    assert(longer.last() == b);
}

/// What holds the entry and every step holds every walk.
proof fn closed_holds_walks(blocks: Seq<IRBasicBlock>, ids: Seq<IRBlockId>, path: Seq<IRBlockId>)
    requires
        walk_from_entry(blocks, path),
        ids.contains(blocks[0].id),
        forall|a: IRBlockId, b: IRBlockId|
            ids.contains(a) && #[trigger] edge(blocks, a, b) ==> ids.contains(b),
    ensures
        ids.contains(path.last()),
    decreases path.len(),
{
    if path.len() > 1 {
        let shorter = path.drop_last();
        assert forall|i: int| 0 <= i < shorter.len() - 1 implies edge(
            blocks,
            shorter[i],
            #[trigger] shorter[i + 1],
        ) by {
            assert(path[i + 1] == shorter[i + 1]);
        }
        closed_holds_walks(blocks, ids, shorter);
        assert(edge(blocks, path[path.len() - 2], path[path.len() - 2 + 1]));
    }
}

/// The blocks reachable from the entry block, each once. A merge block
/// that no edge feeds is not among them.
pub fn reachable_blocks(blocks: &Vec<IRBasicBlock>) -> (r: Vec<IRBlockId>)
    ensures
        r@.no_duplicates(),
        forall|id: IRBlockId| #[trigger] r@.contains(id) <==> reachable(blocks@, id),
{
    let mut seen: Vec<IRBlockId> = Vec::new();
    if blocks.len() == 0 {
        return seen;
    }
    seen.push(blocks[0].id);
    proof {
        let path = seq![blocks@[0].id];
        assert(walk_from_entry(blocks@, path));
        assert(path.last() == blocks@[0].id);
        assert(seen@[0] == blocks@[0].id);
    }
    let mut head: usize = 0;
    while head < seen.len()
        invariant
            head <= seen.len(),
            blocks@.len() > 0,
            seen@.no_duplicates(),
            seen@.contains(blocks@[0].id),
            forall|i: int| 0 <= i < seen@.len() ==> reachable(blocks@, #[trigger] seen@[i]),
            forall|i: int, b: IRBlockId|
                0 <= i < head && #[trigger] edge(blocks@, seen@[i], b) ==> seen@.contains(b),
            head <= 0x1_0000_0000,
        decreases 0x1_0000_0000 - head,
    {
        proof {
            distinct_ids_are_few(seen@);
        }
        let id = seen[head];
        let ghost before = seen@;
        match find_block(blocks, id) {
            Some(at) => {
                let targets = block_successors(&blocks[at]);
                let mut j: usize = 0;
                while j < targets.len()
                    invariant
                        j <= targets.len(),
                        head < before.len() <= seen@.len(),
                        before == seen@.subrange(0, before.len() as int),
                        id == before[head as int],
                        at < blocks@.len(),
                        first_block(blocks@, id, 0) == Some(at as int),
                        targets@ == successors(blocks@[at as int]),
                        seen@.no_duplicates(),
                        forall|i: int|
                            0 <= i < seen@.len() ==> reachable(blocks@, #[trigger] seen@[i]),
                        forall|n: int| 0 <= n < j ==> seen@.contains(#[trigger] targets@[n]),
                    decreases targets.len() - j,
                {
                    let target = targets[j];
                    if !holds(&seen, target) {
                        proof {
                            assert(seen@[head as int] == id);
                            assert(successors(blocks@[at as int]).contains(target));
                            step_is_reachable(blocks@, id, target);
                        }
                        let ghost mid = seen@;
                        seen.push(target);
                        assert(seen@[seen@.len() - 1] == target);
                        assert forall|n: int| 0 <= n < j implies seen@.contains(
                            #[trigger] targets@[n],
                        ) by {
                            let k = choose|k: int| 0 <= k < mid.len() && mid[k] == targets@[n];
                            assert(seen@[k] == targets@[n]);
                        }
                        assert(before =~= seen@.subrange(0, before.len() as int));
                    }
                    j = j + 1;
                }
                assert forall|b: IRBlockId| #[trigger]
                    edge(blocks@, id, b) implies seen@.contains(b) by {
                    let n = choose|n: int| 0 <= n < targets@.len() && targets@[n] == b;
                    assert(seen@.contains(targets@[n]));
                }
            },
            None => {},
        }
        assert forall|i: int, b: IRBlockId|
            0 <= i < head + 1 && #[trigger] edge(blocks@, seen@[i], b) implies seen@.contains(b) by {
            assert(seen@[i] == before[i]);
            if i < head {
                assert(before.contains(b));
                let k = choose|k: int| 0 <= k < before.len() && before[k] == b;
                assert(seen@[k] == b);
            }
        }
        assert(seen@.contains(blocks@[0].id)) by {
            let k = choose|k: int| 0 <= k < before.len() && before[k] == blocks@[0].id;
            assert(seen@[k] == blocks@[0].id);
        }
        head = head + 1;
    }
    assert forall|id: IRBlockId| #[trigger] seen@.contains(id) <==> reachable(blocks@, id) by {
        if reachable(blocks@, id) {
            let path = choose|path: Seq<IRBlockId>| #[trigger]
                walk_from_entry(blocks@, path) && path.last() == id;
            assert forall|a: IRBlockId, b: IRBlockId|
                seen@.contains(a) && #[trigger] edge(blocks@, a, b) implies seen@.contains(b) by {
                let k = choose|k: int| 0 <= k < seen@.len() && seen@[k] == a;
                assert(edge(blocks@, seen@[k], b));
            }
            closed_holds_walks(blocks@, seen@, path);
        }
    }
    seen
}

/// The phis of some blocks, by block and parameter. A `Unit` parameter
/// has none.
pub open spec fn rows(phis: Seq<Vec<Option<Val>>>) -> Seq<Seq<Option<Val>>> {
    Seq::new(phis.len(), |i: int| phis[i]@)
}

/// The phis of the first `k` parameters of a block.
pub open spec fn params_code(s: Code, sc: Scope, params: Seq<BlockParam>, k: nat) -> (
    Code,
    Scope,
    Seq<Option<Val>>,
)
    decreases k,
{
    if k == 0 {
        (s, sc, Seq::empty())
    } else {
        let (t, tc, row) = params_code(s, sc, params, (k - 1) as nat);
        let param = params[k - 1];
        if param.ty == IRType::Unit {
            (t, tc, row.push(None))
        } else {
            (
                t.i(Inst::Phi(value_type(param.ty))),
                tc.bind(param.dest, t.v(0)),
                row.push(Some(t.v(0))),
            )
        }
    }
}

/// The phis of the first `k` blocks, each in its block.
pub open spec fn phis_code(s: Code, sc: Scope, blocks: Seq<IRBasicBlock>, k: nat) -> Option<
    (Code, Scope, Seq<Seq<Option<Val>>>),
>
    decreases k,
{
    if k == 0 {
        Some((s, sc, Seq::empty()))
    } else {
        let block = blocks[k - 1];
        match phis_code(s, sc, blocks, (k - 1) as nat) {
            None => None,
            Some((t, tc, done)) => if block.params@.len() == 0 {
                Some((t, tc, done.push(Seq::empty())))
            } else {
                match tc.block(block.id) {
                    None => None,
                    Some(b) => {
                        let (u, uc, row) = params_code(
                            t.at(b),
                            tc,
                            block.params@,
                            block.params@.len(),
                        );
                        Some((u, uc, done.push(row)))
                    },
                }
            },
        }
    }
}

proof fn failed_phis_stay(s: Code, sc: Scope, blocks: Seq<IRBasicBlock>, n: nat, m: nat)
    requires
        n <= m,
        phis_code(s, sc, blocks, n) is None,
    ensures
        phis_code(s, sc, blocks, m) is None,
    decreases m - n,
{
    if n < m {
        failed_phis_stay(s, sc, blocks, n, (m - 1) as nat);
    }
}

/// Emits the phis of one block's parameters in the current block.
fn declare_params(f: &mut Body, fr: &mut Frame, params: &Vec<BlockParam>) -> (r: Vec<Option<Val>>)
    ensures
        (final(f)@, final(fr)@, r@) == params_code(old(f)@, old(fr)@, params@, params@.len()),
{
    let mut row: Vec<Option<Val>> = Vec::new();
    let mut i: usize = 0;
    while i < params.len()
        invariant
            i <= params.len(),
            (f@, fr@, row@) == params_code(old(f)@, old(fr)@, params@, i as nat),
        decreases params.len() - i,
    {
        if params[i].ty == IRType::Unit {
            row.push(None);
        } else {
            let phi = f.ins(Inst::Phi(value_basic_type(params[i].ty)));
            fr.bind(params[i].dest, phi);
            row.push(Some(phi));
        }
        i = i + 1;
    }
    row
}

/// What is said of the first block with parameters that the function does
/// not hold.
pub open spec fn phi_fault(s: Code, sc: Scope, blocks: Seq<IRBasicBlock>, e: LlvmError) -> bool {
    exists|k: nat| #[trigger]
        phis_fail_at(s, sc, blocks, k) && says(e, undefined_block(blocks[k as int].id))
}

/// The phis of the blocks before the `k`-th can be emitted, and its cannot.
pub open spec fn phis_fail_at(s: Code, sc: Scope, blocks: Seq<IRBasicBlock>, k: nat) -> bool {
    k < blocks.len() && phis_code(s, sc, blocks, k) is Some && phis_code(s, sc, blocks, k + 1) is None
}

/// Emits the phis of every block's parameters and binds the parameters to
/// them. Branches give them their values.
pub fn declare_block_param_phis(f: &mut Body, fr: &mut Frame, blocks: &Vec<IRBasicBlock>) -> (r: Result<
    Vec<Vec<Option<Val>>>,
    LlvmError,
>)
    ensures
        match r {
            Ok(phis) => phis_code(old(f)@, old(fr)@, blocks@, blocks@.len()) == Some(
                (final(f)@, final(fr)@, rows(phis@)),
            ),
            Err(e) => phis_code(old(f)@, old(fr)@, blocks@, blocks@.len()) is None && phi_fault(
                old(f)@,
                old(fr)@,
                blocks@,
                e,
            ),
        },
{
    let mut phis: Vec<Vec<Option<Val>>> = Vec::new();
    assert(rows(phis@) =~= Seq::empty());
    let mut i: usize = 0;
    while i < blocks.len()
        invariant
            i <= blocks.len(),
            phis_code(old(f)@, old(fr)@, blocks@, i as nat) == Some((f@, fr@, rows(phis@))),
        decreases blocks.len() - i,
    {
        let ghost done = rows(phis@);
        if blocks[i].params.len() == 0 {
            let row: Vec<Option<Val>> = Vec::new();
            phis.push(row);
            assert(row@ =~= Seq::empty());
            assert(rows(phis@) =~= done.push(Seq::empty()));
        } else {
            match fr.lookup_block(blocks[i].id) {
                Ok(b) => {
                    f.at(b);
                    let row = declare_params(f, fr, &blocks[i].params);
                    phis.push(row);
                    assert(rows(phis@) =~= done.push(row@));
                },
                Err(e) => {
                    proof {
                        assert(phis_fail_at(old(f)@, old(fr)@, blocks@, i as nat));
                        failed_phis_stay(
                            old(f)@,
                            old(fr)@,
                            blocks@,
                            (i + 1) as nat,
                            blocks@.len(),
                        );
                    }
                    return Err(e);
                },
            }
        }
        i = i + 1;
    }
    Ok(phis)
}

/// The edges from the current block to the first `k` phis of a row.
pub open spec fn wire_code(
    s: Code,
    sc: Scope,
    row: Seq<Option<Val>>,
    args: Seq<ValueId>,
    k: nat,
) -> Option<Code>
    decreases k,
{
    if k == 0 {
        Some(s)
    } else {
        match wire_code(s, sc, row, args, (k - 1) as nat) {
            None => None,
            Some(t) => match row[k - 1] {
                None => Some(t),
                Some(phi) => match sc.value(args[k - 1]) {
                    Some(v) => Some(t.edge(phi, v, t.cur)),
                    None => None,
                },
            },
        }
    }
}

proof fn failed_wires_stay(
    s: Code,
    sc: Scope,
    row: Seq<Option<Val>>,
    args: Seq<ValueId>,
    n: nat,
    m: nat,
)
    requires
        n <= m,
        wire_code(s, sc, row, args, n) is None,
    ensures
        wire_code(s, sc, row, args, m) is None,
    decreases m - n,
{
    if n < m {
        failed_wires_stay(s, sc, row, args, n, (m - 1) as nat);
    }
}

/// The edges along a branch. The predecessor is the block the code stands
/// in, which is not the one the IR block began in where an instruction
/// has split it.
pub open spec fn wired(
    s: Code,
    sc: Scope,
    phis: Seq<Seq<Option<Val>>>,
    target: BranchTarget,
) -> Option<Code> {
    match sc.block(target.block) {
        Some(b) => if b < phis.len() && phis[b as int].len() == target.args@.len() {
            wire_code(s, sc, phis[b as int], target.args@, target.args@.len())
        } else {
            None
        },
        None => None,
    }
}

/// What is said of the first argument from the `i`-th on that a phi takes
/// and that was never bound.
pub open spec fn wire_fault(sc: Scope, row: Seq<Option<Val>>, args: Seq<ValueId>, i: nat) -> Seq<char>
    decreases args.len() - i,
{
    if i >= args.len() {
        ""@
    } else if row[i as int] is Some && sc.value(args[i as int]) is None {
        undefined_value(args[i as int])
    } else {
        wire_fault(sc, row, args, i + 1)
    }
}

/// What is said of a branch that cannot be wired.
pub open spec fn wired_fault(sc: Scope, phis: Seq<Seq<Option<Val>>>, target: BranchTarget) -> Seq<char> {
    match sc.block(target.block) {
        Some(b) => if b < phis.len() && phis[b as int].len() == target.args@.len() {
            wire_fault(sc, phis[b as int], target.args@, 0)
        } else {
            "branch does not pass what its target takes"@
        },
        None => undefined_block(target.block),
    }
}

/// Gives the phis of a branch target the values that flow along the
/// branch.
pub fn wire_phi_incomings(
    f: &mut Body,
    fr: &Frame,
    phis: &Vec<Vec<Option<Val>>>,
    target: &BranchTarget,
) -> (r: Result<(), LlvmError>)
    ensures
        match r {
            Ok(()) => wired(old(f)@, fr@, rows(phis@), *target) == Some(final(f)@),
            Err(e) => wired(old(f)@, fr@, rows(phis@), *target) is None && says(
                e,
                wired_fault(fr@, rows(phis@), *target),
            ),
        },
{
    let b: usize = fr.lookup_block(target.block)?;
    if b >= phis.len() || phis[b].len() != target.args.len() {
        return Err(
            LlvmError::Codegen("branch does not pass what its target takes".to_owned()),
        );
    }
    let row = &phis[b];
    let args = &target.args;
    let mut i: usize = 0;
    while i < args.len()
        invariant
            i <= args.len(),
            row@.len() == args@.len(),
            wire_code(old(f)@, fr@, row@, args@, i as nat) == Some(f@),
            wired_fault(fr@, rows(phis@), *target) == wire_fault(fr@, row@, args@, i as nat),
            wired(old(f)@, fr@, rows(phis@), *target) == wire_code(
                old(f)@,
                fr@,
                row@,
                args@,
                args@.len(),
            ),
        decreases args.len() - i,
    {
        match row[i] {
            None => {},
            Some(phi) => match fr.lookup(args[i]) {
                Ok(v) => {
                    let from: usize = f.cur;
                    f.edge(phi, v, from);
                },
                Err(e) => {
                    proof {
                        failed_wires_stay(
                            old(f)@,
                            fr@,
                            row@,
                            args@,
                            (i + 1) as nat,
                            args@.len(),
                        );
                    }
                    return Err(e);
                },
            },
        }
        i = i + 1;
    }
    Ok(())
}

/// The stores of the first `k` tail-call arguments into the slots of
/// their parameters.
pub open spec fn tail_args_code(
    s: Code,
    sc: Scope,
    slots: Seq<(IRLocalId, IRType)>,
    args: Seq<ValueId>,
    k: nat,
) -> Option<Code>
    decreases k,
{
    if k == 0 {
        Some(s)
    } else {
        match (
            tail_args_code(s, sc, slots, args, (k - 1) as nat),
            sc.value(args[k - 1]),
            sc.local(slots[k - 1].0),
        ) {
            (Some(t), Some(v), Some(slot)) => Some(
                t.i(Inst::Store(value_type(slots[k - 1].1), v, slot)),
            ),
            _ => None,
        }
    }
}

proof fn failed_args_stay(
    s: Code,
    sc: Scope,
    slots: Seq<(IRLocalId, IRType)>,
    args: Seq<ValueId>,
    n: nat,
    m: nat,
)
    requires
        n <= m,
        tail_args_code(s, sc, slots, args, n) is None,
    ensures
        tail_args_code(s, sc, slots, args, m) is None,
    decreases m - n,
{
    if n < m {
        failed_args_stay(s, sc, slots, args, n, (m - 1) as nat);
    }
}

/// The zeroes of the first `k` body slots.
pub open spec fn zero_slots_code(s: Code, sc: Scope, slots: Seq<(IRLocalId, IRType)>, k: nat) -> Option<
    Code,
>
    decreases k,
{
    if k == 0 {
        Some(s)
    } else {
        match (zero_slots_code(s, sc, slots, (k - 1) as nat), sc.local(slots[k - 1].0)) {
            (Some(t), Some(slot)) => Some(
                t.i(Inst::Store(value_type(slots[k - 1].1), Val::Zero, slot)),
            ),
            _ => None,
        }
    }
}

proof fn failed_zeroes_stay(s: Code, sc: Scope, slots: Seq<(IRLocalId, IRType)>, n: nat, m: nat)
    requires
        n <= m,
        zero_slots_code(s, sc, slots, n) is None,
    ensures
        zero_slots_code(s, sc, slots, m) is None,
    decreases m - n,
{
    if n < m {
        failed_zeroes_stay(s, sc, slots, n, (m - 1) as nat);
    }
}

/// A tail call: every argument goes to the slot of its parameter, every
/// other slot is zeroed as on a fresh activation, and the loop begins
/// anew.
pub open spec fn tail_call_code(s: Code, sc: Scope, args: Seq<ValueId>) -> Option<Code> {
    match sc.tco {
        None => None,
        Some(frame) => if args.len() != frame.param_slots.len() {
            None
        } else {
            match tail_args_code(s, sc, frame.param_slots, args, args.len()) {
                None => None,
                Some(t) => match zero_slots_code(
                    t,
                    sc,
                    frame.body_slots,
                    frame.body_slots.len(),
                ) {
                    Some(u) => Some(u.i(Inst::Br(frame.loop_block))),
                    None => None,
                },
            }
        },
    }
}

/// What is said of the first tail-call argument from the `i`-th on that
/// cannot be stored.
pub open spec fn tail_args_fault(
    sc: Scope,
    slots: Seq<(IRLocalId, IRType)>,
    args: Seq<ValueId>,
    i: nat,
) -> Option<Seq<char>>
    decreases args.len() - i,
{
    if i >= args.len() {
        None
    } else if sc.value(args[i as int]) is None {
        Some(undefined_value(args[i as int]))
    } else if sc.local(slots[i as int].0) is None {
        Some(undefined_local(slots[i as int].0))
    } else {
        tail_args_fault(sc, slots, args, i + 1)
    }
}

/// What is said of the first slot from the `i`-th on that is not placed.
pub open spec fn zero_fault(sc: Scope, slots: Seq<(IRLocalId, IRType)>, i: nat) -> Seq<char>
    decreases slots.len() - i,
{
    if i >= slots.len() {
        ""@
    } else if sc.local(slots[i as int].0) is None {
        undefined_local(slots[i as int].0)
    } else {
        zero_fault(sc, slots, i + 1)
    }
}

/// What is said of a tail call that cannot be emitted.
pub open spec fn tail_fault(sc: Scope, args: Seq<ValueId>) -> Seq<char> {
    match sc.tco {
        None => "tail call without a tail-call frame"@,
        Some(frame) => if args.len() != frame.param_slots.len() {
            "tail call does not pass what the function takes"@
        } else {
            match tail_args_fault(sc, frame.param_slots, args, 0) {
                Some(text) => text,
                None => zero_fault(sc, frame.body_slots, 0),
            }
        },
    }
}

/// Emits a tail call.
pub fn emit_tail_call(f: &mut Body, fr: &Frame, args: &Vec<ValueId>) -> (r: Result<(), LlvmError>)
    ensures
        match r {
            Ok(()) => tail_call_code(old(f)@, fr@, args@) == Some(final(f)@),
            Err(e) => tail_call_code(old(f)@, fr@, args@) is None && says(e, tail_fault(fr@, args@)),
        },
{
    let frame = match &fr.tco {
        Some(frame) => frame,
        None => {
            return Err(LlvmError::Codegen("tail call without a tail-call frame".to_owned()));
        },
    };
    if args.len() != frame.param_slots.len() {
        return Err(
            LlvmError::Codegen("tail call does not pass what the function takes".to_owned()),
        );
    }
    let slots = &frame.param_slots;
    let mut i: usize = 0;
    while i < args.len()
        invariant
            i <= args.len(),
            args@.len() == slots@.len(),
            tail_args_code(old(f)@, fr@, slots@, args@, i as nat) == Some(f@),
            tail_args_fault(fr@, slots@, args@, 0) == tail_args_fault(fr@, slots@, args@, i as nat),
            tail_fault(fr@, args@) == match tail_args_fault(fr@, slots@, args@, 0) {
                Some(text) => text,
                None => zero_fault(fr@, frame.body_slots@, 0),
            },
            tail_args_code(old(f)@, fr@, slots@, args@, args@.len()) is None ==> tail_call_code(
                old(f)@,
                fr@,
                args@,
            ) is None,
        decreases args.len() - i,
    {
        match (fr.lookup(args[i]), fr.local_slot(slots[i].0)) {
            (Ok(v), Ok(slot)) => {
                f.ins(Inst::Store(value_basic_type(slots[i].1), v, slot));
            },
            (Err(e), _) => {
                proof {
                    failed_args_stay(old(f)@, fr@, slots@, args@, (i + 1) as nat, args@.len());
                }
                return Err(e);
            },
            (_, Err(e)) => {
                proof {
                    failed_args_stay(old(f)@, fr@, slots@, args@, (i + 1) as nat, args@.len());
                }
                return Err(e);
            },
        }
        i = i + 1;
    }
    let ghost t = f@;
    let body = &frame.body_slots;
    let mut j: usize = 0;
    while j < body.len()
        invariant
            j <= body.len(),
            zero_slots_code(t, fr@, body@, j as nat) == Some(f@),
            tail_fault(fr@, args@) == zero_fault(fr@, body@, j as nat),
            zero_slots_code(t, fr@, body@, body@.len()) is None ==> tail_call_code(
                old(f)@,
                fr@,
                args@,
            ) is None,
        decreases body.len() - j,
    {
        match fr.local_slot(body[j].0) {
            Ok(slot) => {
                f.ins(Inst::Store(value_basic_type(body[j].1), Val::Zero, slot));
            },
            Err(e) => {
                proof {
                    failed_zeroes_stay(t, fr@, body@, (j + 1) as nat, body@.len());
                }
                return Err(e);
            },
        }
        j = j + 1;
    }
    f.ins(Inst::Br(frame.loop_block));
    Ok(())
}

/// A terminator in its natural form.
pub open spec fn terminator_code(
    s: Code,
    sc: Scope,
    phis: Seq<Seq<Option<Val>>>,
    terminator: IRTerminator,
) -> Option<Code> {
    match terminator {
        IRTerminator::Branch(target) => match sc.block(target.block) {
            Some(b) => wired(s.i(Inst::Br(b)), sc, phis, target),
            None => None,
        },
        IRTerminator::CondBranch { cond, else_target, then_target } => match (
            sc.value(cond),
            sc.block(then_target.block),
            sc.block(else_target.block),
        ) {
            (Some(v), Some(a), Some(b)) => match wired(
                s.i(Inst::CondBr(v, a, b)),
                sc,
                phis,
                then_target,
            ) {
                Some(t) => wired(t, sc, phis, else_target),
                None => None,
            },
            _ => None,
        },
        IRTerminator::Return { value } => match value {
            None => Some(s.i(Inst::RetVoid)),
            Some(id) => if sc.ret == LType::Void {
                Some(s.i(Inst::RetVoid))
            } else {
                match sc.value(id) {
                    Some(v) => Some(s.i(Inst::Ret(sc.ret, v))),
                    None => None,
                }
            },
        },
        IRTerminator::TailCall { args } => tail_call_code(s, sc, args@),
        IRTerminator::Unreachable => Some(s.i(Inst::Unreachable)),
    }
}

/// What is said of a terminator that cannot be emitted.
pub open spec fn terminator_fault(
    s: Code,
    sc: Scope,
    phis: Seq<Seq<Option<Val>>>,
    terminator: IRTerminator,
) -> Seq<char> {
    match terminator {
        IRTerminator::Branch(target) => wired_fault(sc, phis, target),
        IRTerminator::CondBranch { cond, else_target, then_target } => match (
            sc.value(cond),
            sc.block(then_target.block),
            sc.block(else_target.block),
        ) {
            (None, _, _) => undefined_value(cond),
            (_, None, _) => undefined_block(then_target.block),
            (_, _, None) => undefined_block(else_target.block),
            (Some(v), Some(a), Some(b)) => if wired(s.i(Inst::CondBr(v, a, b)), sc, phis, then_target) is None {
                wired_fault(sc, phis, then_target)
            } else {
                wired_fault(sc, phis, else_target)
            },
        },
        IRTerminator::Return { value } => match value {
            Some(id) => undefined_value(id),
            None => ""@,
        },
        IRTerminator::TailCall { args } => tail_fault(sc, args@),
        IRTerminator::Unreachable => ""@,
    }
}

/// Emits a terminator. A function that returns nothing ignores the value
/// that its IR returns.
pub fn emit_terminator_default(
    f: &mut Body,
    fr: &Frame,
    phis: &Vec<Vec<Option<Val>>>,
    terminator: &IRTerminator,
) -> (r: Result<(), LlvmError>)
    ensures
        match r {
            Ok(()) => terminator_code(old(f)@, fr@, rows(phis@), *terminator) == Some(final(f)@),
            Err(e) => terminator_code(old(f)@, fr@, rows(phis@), *terminator) is None && says(
                e,
                terminator_fault(old(f)@, fr@, rows(phis@), *terminator),
            ),
        },
{
    match terminator {
        IRTerminator::Branch(target) => {
            let b: usize = fr.lookup_block(target.block)?;
            f.ins(Inst::Br(b));
            wire_phi_incomings(f, fr, phis, target)
        },
        IRTerminator::CondBranch { cond, else_target, then_target } => {
            let v = fr.lookup(*cond)?;
            let a: usize = fr.lookup_block(then_target.block)?;
            let b: usize = fr.lookup_block(else_target.block)?;
            f.ins(Inst::CondBr(v, a, b));
            wire_phi_incomings(f, fr, phis, then_target)?;
            wire_phi_incomings(f, fr, phis, else_target)
        },
        IRTerminator::Return { value } => {
            match value {
                None => {
                    f.ins(Inst::RetVoid);
                },
                Some(id) => {
                    if fr.ret == LType::Void {
                        f.ins(Inst::RetVoid);
                    } else {
                        let v = fr.lookup(*id)?;
                        f.ins(Inst::Ret(fr.ret, v));
                    }
                },
            }
            Ok(())
        },
        IRTerminator::TailCall { args } => emit_tail_call(f, fr, args),
        IRTerminator::Unreachable => {
            f.ins(Inst::Unreachable);
            Ok(())
        },
    }
}

/// What ends a block whose instructions are done: nothing where an
/// instruction has ended it already, as a receive does, and its
/// terminator otherwise.
pub open spec fn close_block_code(
    s: Code,
    sc: Scope,
    phis: Seq<Seq<Option<Val>>>,
    terminator: IRTerminator,
) -> Option<Code> {
    if s.capped() {
        Some(s)
    } else {
        terminator_code(s, sc, phis, terminator)
    }
}

/// Ends a block whose instructions are done.
pub fn close_block(f: &mut Body, fr: &Frame, phis: &Vec<Vec<Option<Val>>>, terminator: &IRTerminator) -> (r:
    Result<(), LlvmError>)
    ensures
        match r {
            Ok(()) => close_block_code(old(f)@, fr@, rows(phis@), *terminator) == Some(final(f)@),
            Err(e) => close_block_code(old(f)@, fr@, rows(phis@), *terminator) is None && says(
                e,
                terminator_fault(old(f)@, fr@, rows(phis@), *terminator),
            ),
        },
{
    if f.is_capped() {
        return Ok(());
    }
    emit_terminator_default(f, fr, phis, terminator)
}

/// One block: its instructions and what ends it.
pub open spec fn block_code(
    c: &EmitContext,
    s: Code,
    sc: Scope,
    phis: Seq<Seq<Option<Val>>>,
    block: IRBasicBlock,
) -> Option<(Code, Scope)> {
    match instructions_code(c, s, sc, block.instructions@, 0, block.instructions@.len()) {
        Some((t, tc)) => match close_block_code(t, tc, phis, block.terminator) {
            Some(u) => Some((u, tc)),
            None => None,
        },
        None => None,
    }
}

/// What is said of a block that cannot be emitted: what is said of its first
/// instruction that cannot, or of what ends it.
pub open spec fn block_fault(
    c: &EmitContext,
    s: Code,
    sc: Scope,
    phis: Seq<Seq<Option<Val>>>,
    block: IRBasicBlock,
    e: LlvmError,
) -> bool {
    let all = block.instructions@;
    match instructions_code(c, s, sc, all, 0, all.len()) {
        None => instructions_fault(c, s, sc, all, 0, all.len(), e),
        Some((t, tc)) => says(e, terminator_fault(t, tc, phis, block.terminator)),
    }
}

/// Emits one block where the code stands.
pub fn emit_block(
    c: &EmitContext,
    f: &mut Body,
    fr: &mut Frame,
    phis: &Vec<Vec<Option<Val>>>,
    block: &IRBasicBlock,
) -> (r: Result<(), LlvmError>)
    ensures
        match r {
            Ok(()) => block_code(c, old(f)@, old(fr)@, rows(phis@), *block) == Some(
                (final(f)@, final(fr)@),
            ),
            Err(e) => block_code(c, old(f)@, old(fr)@, rows(phis@), *block) is None && e is Codegen
                && block_fault(c, old(f)@, old(fr)@, rows(phis@), *block, e),
        },
{
    let n: usize = block.instructions.len();
    emit_instructions(c, f, fr, &block.instructions, 0, n)?;
    close_block(f, fr, phis, &block.terminator)
}

} // verus!
