//! What recorded instructions compute.
//!
//! An operand stands for a 64-bit word. Constants stand for themselves,
//! and the result of a computation is computed from its operands; what
//! comes from outside the computation (parameters, slots, loads, calls,
//! phis) is given by an environment. A machine that keeps registers and
//! memory runs a whole body, block by block.

use vstd::prelude::*;
use crate::llvm::{Args, BinOp, Callee, Cases, CastOp, Checked, Code, Edge, Entry, Inst, LType, Pred, Val};
use crate::memory::{in_memory, number, stored, Memory};
use crate::types::width_of;

verus! {

/// `2` to the number of bits of an integer type.
pub open spec fn modulus(ty: LType) -> int {
    match ty {
        LType::I1 => 0x2,
        LType::I8 => 0x100,
        LType::I16 => 0x1_0000,
        LType::I32 => 0x1_0000_0000,
        _ => 0x1_0000_0000_0000_0000,
    }
}

/// A number in the width of a type.
pub open spec fn wrapped(ty: LType, x: int) -> u64 {
    (x % modulus(ty)) as u64
}

/// The signed number that a word of a type stands for.
pub open spec fn signed_value(ty: LType, a: u64) -> int {
    if 2 * a >= modulus(ty) {
        a - modulus(ty)
    } else {
        a as int
    }
}

/// The quotient of two signed numbers, rounded towards zero.
pub open spec fn truncated_quotient(a: int, b: int) -> int {
    if a >= 0 && b > 0 {
        a / b
    } else if a >= 0 {
        -(a / -b)
    } else if b > 0 {
        -(-a / b)
    } else {
        -a / -b
    }
}

/// Adding `2` to the 64 changes no 64-bit word.
pub proof fn wraps_once(x: int)
    ensures
        wrapped(LType::I64, x + 0x1_0000_0000_0000_0000) == wrapped(LType::I64, x),
{
    vstd::arithmetic::div_mod::lemma_mod_add_multiples_vanish(x, 0x1_0000_0000_0000_0000);
}

/// What a binary operator computes on words of a type. Division by zero
/// and shifts by the width or more have no value of their own.
pub open spec fn bin_value(op: BinOp, ty: LType, a: u64, b: u64) -> Option<u64> {
    let w = width_of(ty);
    match op {
        BinOp::Add => Some(wrapped(ty, a + b)),
        BinOp::Sub => Some(wrapped(ty, a - b)),
        BinOp::Mul => Some(wrapped(ty, a * b)),
        BinOp::And => Some(a & b),
        BinOp::Or => Some(a | b),
        BinOp::Xor => Some(a ^ b),
        BinOp::LShr => if b < w {
            Some(a >> b)
        } else {
            None
        },
        BinOp::Shl => if b < w {
            Some(wrapped(ty, (a << b) as int))
        } else {
            None
        },
        BinOp::AShr => if b < w {
            Some(wrapped(ty, signed_value(ty, a) / (1u64 << b) as int))
        } else {
            None
        },
        BinOp::UDiv => if b != 0 {
            Some(a / b)
        } else {
            None
        },
        BinOp::URem => if b != 0 {
            Some(a % b)
        } else {
            None
        },
        BinOp::SDiv => {
            let (x, y) = (signed_value(ty, a), signed_value(ty, b));
            if y != 0 && 2 * truncated_quotient(x, y) < modulus(ty) {
                Some(wrapped(ty, truncated_quotient(x, y)))
            } else {
                None
            }
        },
        BinOp::SRem => {
            let (x, y) = (signed_value(ty, a), signed_value(ty, b));
            if y != 0 && 2 * truncated_quotient(x, y) < modulus(ty) {
                Some(wrapped(ty, x - y * truncated_quotient(x, y)))
            } else {
                None
            }
        },
        _ => None,
    }
}

/// Whether two words of a type compare as a predicate says.
pub open spec fn test_value(pred: Pred, ty: LType, a: u64, b: u64) -> bool {
    match pred {
        Pred::Eq => a == b,
        Pred::Ne => a != b,
        Pred::Ugt => a > b,
        Pred::Uge => a >= b,
        Pred::Ult => a < b,
        Pred::Ule => a <= b,
        Pred::Sgt => signed_value(ty, a) > signed_value(ty, b),
        Pred::Sge => signed_value(ty, a) >= signed_value(ty, b),
        Pred::Slt => signed_value(ty, a) < signed_value(ty, b),
        Pred::Sle => signed_value(ty, a) <= signed_value(ty, b),
        _ => false,
    }
}

/// A truth value as a word.
pub open spec fn bit(b: bool) -> u64 {
    if b {
        1
    } else {
        0
    }
}

/// What a cast computes.
pub open spec fn cast_value(op: CastOp, from: LType, a: u64, to: LType) -> Option<u64> {
    match op {
        CastOp::Trunc => Some(wrapped(to, a as int)),
        CastOp::ZExt | CastOp::PtrToInt | CastOp::IntToPtr => Some(a),
        CastOp::SExt => Some(wrapped(to, signed_value(from, a))),
        _ => None,
    }
}

/// What an operand stands for, the first results being known.
pub open spec fn word(known: Seq<u64>, env: spec_fn(Val) -> u64, v: Val) -> u64 {
    match v {
        Val::At(m) => if m < known.len() {
            known[m as int]
        } else {
            env(v)
        },
        Val::Int(k) => k,
        Val::Null => 0,
        _ => env(v),
    }
}

/// What an instruction computes from its operands. A result that does
/// not follow from the operands alone is `given`.
pub open spec fn computed(read: spec_fn(Val) -> u64, inst: Inst, given: u64) -> u64 {
    match inst {
        Inst::Bin(op, ty, a, b) => match bin_value(op, ty, read(a), read(b)) {
            Some(x) => x,
            None => given,
        },
        Inst::Neg(ty, a) => wrapped(ty, -read(a)),
        Inst::Not(ty, a) => wrapped(ty, -1 - read(a)),
        Inst::ITest(pred, ty, a, b) => bit(test_value(pred, ty, read(a), read(b))),
        Inst::Select(ty, p, a, b) => if read(p) == 1 {
            read(a)
        } else {
            read(b)
        },
        Inst::Cast(op, from, a, to) => match cast_value(op, from, read(a), to) {
            Some(x) => x,
            None => given,
        },
        Inst::Gep(ty, p, i) => if ty == LType::I8 {
            wrapped(LType::I64, read(p) + read(i))
        } else {
            given
        },
        Inst::GepIn(ty, p, i) => if ty == LType::I8 {
            wrapped(LType::I64, read(p) + read(i))
        } else {
            given
        },
        _ => given,
    }
}

/// What the recorded instructions compute, one after another.
pub open spec fn words(log: Seq<Entry>, env: spec_fn(Val) -> u64) -> Seq<u64>
    decreases log.len(),
{
    if log.len() == 0 {
        Seq::empty()
    } else {
        let known = words(log.drop_last(), env);
        known.push(
            computed(
                |v: Val| word(known, env, v),
                log.last().inst,
                env(Val::At((log.len() - 1) as usize)),
            ),
        )
    }
}

impl Code {
    /// What an operand stands for at this point of the code.
    pub open spec fn value(self, env: spec_fn(Val) -> u64, v: Val) -> u64 {
        word(words(self.log, env), env, v)
    }

    /// The operand is defined at this point of the code.
    pub open spec fn defines(self, v: Val) -> bool {
        match v {
            Val::At(m) => m < self.log.len(),
            _ => true,
        }
    }

    /// There is room for `k` more instructions.
    pub open spec fn room(self, k: int) -> bool {
        self.log.len() + k <= usize::MAX
    }

    /// What an instruction computes at this point of the code.
    pub open spec fn outcome(self, env: spec_fn(Val) -> u64, inst: Inst) -> u64 {
        computed(|v: Val| self.value(env, v), inst, env(self.v(0)))
    }
}

/// Every recorded instruction has one result.
pub proof fn words_are_numbered(log: Seq<Entry>, env: spec_fn(Val) -> u64)
    ensures
        words(log, env).len() == log.len(),
    decreases log.len(),
{
    if log.len() > 0 {
        words_are_numbered(log.drop_last(), env);
    }
}

/// Recording an instruction gives its result a value and keeps the value
/// of everything that was defined before.
pub proof fn recording_keeps_values(s: Code, env: spec_fn(Val) -> u64, inst: Inst)
    requires
        s.room(1),
    ensures
        s.i(inst).value(env, s.v(0)) == s.outcome(env, inst),
        forall|v: Val| s.defines(v) ==> #[trigger] s.i(inst).value(env, v) == s.value(env, v),
{
    let t = s.i(inst);
    assert(t.log.drop_last() =~= s.log);
    words_are_numbered(s.log, env);
    words_are_numbered(t.log, env);
    let known = words(s.log, env);
    assert((|v: Val| word(known, env, v)) =~= (|v: Val| s.value(env, v)));
}

/// What is defined keeps its value whatever is recorded after it.
pub proof fn later_code_keeps_values(s: Code, later: Code, env: spec_fn(Val) -> u64, v: Val)
    requires
        s.log.is_prefix_of(later.log),
        later.log.len() <= usize::MAX,
        s.defines(v),
    ensures
        later.value(env, v) == s.value(env, v),
    decreases later.log.len(),
{
    if later.log.len() > s.log.len() {
        let before = Code { log: later.log.drop_last(), cur: later.log.last().block, ..later };
        assert(s.log =~= before.log.subrange(0, s.log.len() as int)) by {
            assert(s.log =~= later.log.subrange(0, s.log.len() as int));
        }
        let again = before.i(later.log.last().inst);
        later_code_keeps_values(s, before, env, v);
        recording_keeps_values(before, env, later.log.last().inst);
        assert(again.log =~= later.log);
        assert(again.value(env, v) == before.value(env, v));
    } else {
        assert(s.log =~= later.log);
    }
}

/// What the body of a function runs against: its parameters, the parts of
/// the aggregate ones, its stack slots, whatever the model does not
/// compute, the sizes of aggregates in bytes, where their fields lie in
/// them, the functions that it calls, and how floats behave. An aggregate is the number that
/// its bytes make up.
pub struct Outside {
    pub values: spec_fn(Val) -> int,
    pub parts: spec_fn(usize, usize) -> int,
    pub sizes: spec_fn(LType) -> nat,
    pub offsets: spec_fn(LType, usize) -> int,
    pub calls: spec_fn(Callee, Seq<int>, Memory) -> (int, Memory),
    pub floats: Floats,
}

/// Floating-point arithmetic: what an operator gives, how two numbers
/// compare (below zero, zero or above zero; nothing where one of them is
/// not a number), and the magnitude and the opposite of a number.
pub struct Floats {
    pub bin: spec_fn(BinOp, LType, int, int) -> int,
    pub compare: spec_fn(LType, int, int) -> Option<int>,
    pub magnitude: spec_fn(LType, int) -> int,
    pub opposite: spec_fn(LType, int) -> int,
}

/// Whether two floats that compare so are as a predicate says.
pub open spec fn float_test(pred: Pred, compared: Option<int>) -> bool {
    match (pred, compared) {
        (Pred::Une, None) | (Pred::Uno, None) => true,
        (_, None) => false,
        (Pred::Oeq, Some(d)) => d == 0,
        (Pred::One, Some(d)) | (Pred::Une, Some(d)) => d != 0,
        (Pred::Ogt, Some(d)) => d > 0,
        (Pred::Oge, Some(d)) => d >= 0,
        (Pred::Olt, Some(d)) => d < 0,
        (Pred::Ole, Some(d)) => d <= 0,
        (Pred::Ord, Some(_)) => true,
        _ => false,
    }
}

/// The operator works on floats.
pub open spec fn is_float_op(op: BinOp) -> bool {
    op == BinOp::FAdd || op == BinOp::FSub || op == BinOp::FMul || op == BinOp::FDiv || op == BinOp::FRem
}

/// The number that a checked operation is after, its operands being
/// words of a type.
pub open spec fn exact_value(op: Checked, ty: LType, a: u64, b: u64) -> int {
    let (x, y) = (signed_value(ty, a), signed_value(ty, b));
    match op {
        Checked::SAdd => x + y,
        Checked::SSub => x - y,
        Checked::SMul => x * y,
        Checked::UAdd => a + b,
        Checked::USub => a - b,
        Checked::UMul => a * b,
    }
}

/// A number is not among those that a type holds.
pub open spec fn overflows(op: Checked, ty: LType, x: int) -> bool {
    match op {
        Checked::SAdd | Checked::SSub | Checked::SMul => !(-modulus(ty) <= 2 * x < modulus(ty)),
        _ => !(0 <= x < modulus(ty)),
    }
}

/// Where a switch goes on a word: to the block of the first arm that
/// names it, or to the default.
pub open spec fn chosen(x: int, cases: Cases, otherwise: usize) -> usize
    decreases cases,
{
    match cases {
        Cases::Nil => otherwise,
        Cases::Cons(k, block, rest) => if x == k {
            block
        } else {
            chosen(x, *rest, otherwise)
        },
    }
}

/// The address of a field of an aggregate.
pub open spec fn field_at(o: Outside, ty: LType, base: int, k: usize) -> int {
    wrapped(LType::I64, base + (o.offsets)(ty, k)) as int
}

/// The address so many elements past another.
pub open spec fn element_at(o: Outside, ty: LType, base: int, i: int) -> int {
    if ty == LType::I8 {
        wrapped(LType::I64, base as u64 + i as u64) as int
    } else {
        wrapped(LType::I64, base as u64 + (i as u64) * byte_count(o, ty)) as int
    }
}

/// The bytes of an aggregate that is a number.
pub open spec fn bytes_of(x: int, n: nat) -> Memory {
    stored(Memory { bytes: Map::empty(), taken: Set::empty(), blocks: Map::empty() }, 0, x, n)
}

/// A part of a table value, which is a number.
pub open spec fn table_part(o: Outside, x: int, k: usize) -> int {
    number(bytes_of(x, byte_count(o, LType::Table)), (o.offsets)(LType::Table, k), 8)
}

/// A table value with one part replaced.
pub open spec fn with_part(o: Outside, x: int, v: int, k: usize) -> int {
    let n = byte_count(o, LType::Table);
    number(stored(bytes_of(x, n), (o.offsets)(LType::Table, k), v, 8), 0, n)
}

/// An aggregate value with another value where a field lies.
pub open spec fn with_field(o: Outside, ty: LType, x: int, part_ty: LType, v: int, k: usize) -> int {
    let n = byte_count(o, ty);
    number(stored(bytes_of(x, n), (o.offsets)(ty, k), v, byte_count(o, part_ty)), 0, n)
}

/// What an aggregate is with one part replaced.
pub open spec fn inserted(o: Outside, ty: LType, x: int, part_ty: LType, v: int, k: usize) -> int {
    if ty == LType::Table {
        with_part(o, x, v, k)
    } else {
        with_field(o, ty, x, part_ty, v, k)
    }
}

/// A function body as it runs.
pub struct Machine {
    /// The results so far, by the place of their instruction.
    pub results: Map<usize, int>,
    /// The results when the current block was entered: what its phis read.
    pub entered: Map<usize, int>,
    /// The parts of the aggregates so far.
    pub parts: Map<usize, Map<usize, int>>,
    pub memory: Memory,
    /// The instruction to run next.
    pub at: nat,
    /// The block that the current one was entered from.
    pub from: usize,
    /// What the function gave back.
    pub returned: Option<int>,
    /// The parts of what it gave back.
    pub returned_parts: Map<usize, int>,
}

/// The first instruction of a block, from place `n` on.
pub open spec fn seek(log: Seq<Entry>, block: usize, n: nat) -> nat
    decreases log.len() - n,
{
    if n >= log.len() || log[n as int].block == block {
        n
    } else {
        seek(log, block, n + 1)
    }
}

/// A search stops at the first instruction of the block.
pub proof fn seek_finds(log: Seq<Entry>, block: usize, n: nat, m: nat)
    requires
        n <= m < log.len(),
        log[m as int].block == block,
        forall|i: int| n <= i < m ==> (#[trigger] log[i]).block != block,
    ensures
        seek(log, block, n) == m,
    decreases m - n,
{
    if n < m {
        assert(log[n as int].block != block);
        seek_finds(log, block, n + 1, m);
    }
}

/// How many bytes a value of a type takes in memory.
pub open spec fn byte_count(o: Outside, ty: LType) -> nat {
    match ty {
        LType::I1 | LType::I8 => 1,
        LType::I16 => 2,
        LType::I32 | LType::F32 => 4,
        LType::I64 | LType::F64 | LType::Ptr => 8,
        _ => (o.sizes)(ty),
    }
}

/// What a phi takes when its block is entered from `from`: the value of
/// the first edge that comes from there.
pub open spec fn incoming(edges: Seq<Edge>, phi: Val, from: usize) -> Option<Val>
    decreases edges.len(),
{
    if edges.len() == 0 {
        None
    } else if edges[0].phi == phi && edges[0].from == from {
        Some(edges[0].value)
    } else {
        incoming(edges.drop_first(), phi, from)
    }
}

/// A phi takes the first edge that fits.
pub proof fn incoming_finds(edges: Seq<Edge>, phi: Val, from: usize, k: int)
    requires
        0 <= k < edges.len(),
        edges[k].phi == phi,
        edges[k].from == from,
        forall|j: int| 0 <= j < k ==> !((#[trigger] edges[j]).phi == phi && edges[j].from == from),
    ensures
        incoming(edges, phi, from) == Some(edges[k].value),
    decreases k,
{
    if k > 0 {
        assert(!(edges[0].phi == phi && edges[0].from == from));
        let rest = edges.drop_first();
        assert forall|j: int| 0 <= j < k - 1 implies !((#[trigger] rest[j]).phi == phi && rest[j].from
            == from) by {
            assert(rest[j] == edges[j + 1]);
        }
        assert(rest[k - 1] == edges[k]);
        incoming_finds(rest, phi, from, k - 1);
    }
}

/// Code whose instructions stand in its own blocks and whose edges belong
/// to its own phis.
pub open spec fn tidy(s: Code) -> bool {
    &&& s.log.len() <= usize::MAX
    &&& s.blocks <= usize::MAX
    &&& s.cur < s.blocks
    &&& forall|i: int| 0 <= i < s.log.len() ==> (#[trigger] s.log[i]).block < s.blocks
    &&& forall|j: int|
        0 <= j < s.edges.len() ==> match (#[trigger] s.edges[j]).phi {
            Val::At(p) => p < s.log.len(),
            _ => false,
        }
}

/// One body begins as another.
pub open spec fn begins_as(whole: Code, part: Code) -> bool {
    &&& part.log.is_prefix_of(whole.log)
    &&& part.edges.is_prefix_of(whole.edges)
    &&& whole.log.len() <= usize::MAX
}

/// One body begins with the instructions, stack slots, phi edges and
/// literals of another.
pub open spec fn stands(code: Code, t: Code) -> bool {
    &&& t.log.len() <= code.log.len() <= usize::MAX
    &&& t.slots.len() <= code.slots.len() <= usize::MAX
    &&& forall|i: int| 0 <= i < t.log.len() ==> #[trigger] code.log[i] == t.log[i]
    &&& forall|j: int| 0 <= j < t.slots.len() ==> #[trigger] code.slots[j] == t.slots[j]
    &&& t.edges.len() <= code.edges.len()
    &&& forall|j: int| 0 <= j < t.edges.len() ==> #[trigger] code.edges[j] == t.edges[j]
    &&& t.texts.len() <= code.texts.len() <= usize::MAX
    &&& forall|j: int| 0 <= j < t.texts.len() ==> #[trigger] code.texts[j] == t.texts[j]
}

/// Every stack slot of a body is a range of memory.
pub open spec fn slots_stand(o: Outside, code: Code) -> bool {
    forall|j: int|
        0 <= j < code.slots.len() ==> in_memory(
            (o.values)(Val::Slot(j as usize)),
            byte_count(o, #[trigger] code.slots[j]) as int,
        )
}

/// Code that goes on from another in its block.
pub open spec fn goes_on_from(t: Code, s: Code, n: int) -> bool {
    &&& t == Code { log: t.log, slots: t.slots, ..s }
    &&& t.log.len() == s.log.len() + n
    &&& forall|i: int| 0 <= i < s.log.len() ==> #[trigger] t.log[i] == s.log[i]
    &&& forall|i: int| s.log.len() <= i < t.log.len() ==> (#[trigger] t.log[i]).block == s.cur
    &&& s.slots.len() <= t.slots.len() <= s.slots.len() + n
    &&& forall|j: int| 0 <= j < s.slots.len() ==> #[trigger] t.slots[j] == s.slots[j]
}

/// Where a block begins whose first instruction follows some code.
pub proof fn block_begins(code: Code, s: Code)
    requires
        stands(code, s),
        s.log.len() < code.log.len(),
        code.log[s.log.len() as int].block == s.cur,
        forall|i: int| 0 <= i < s.log.len() ==> (#[trigger] s.log[i]).block != s.cur,
    ensures
        seek(code.log, s.cur, 0) == s.log.len(),
{
    assert forall|i: int| 0 <= i < s.log.len() implies (#[trigger] code.log[i]).block != s.cur by {
        assert(code.log[i] == s.log[i]);
    }
    seek_finds(code.log, s.cur, 0, s.log.len());
}

/// What the beginning of a body records, the body records.
pub proof fn beginning_stands(whole: Code, part: Code)
    requires
        begins_as(whole, part),
    ensures
        part.log.len() <= whole.log.len(),
        part.edges.len() <= whole.edges.len(),
        forall|i: int| 0 <= i < part.log.len() ==> #[trigger] whole.log[i] == part.log[i],
        forall|j: int| 0 <= j < part.edges.len() ==> #[trigger] whole.edges[j] == part.edges[j],
{
    assert forall|i: int| 0 <= i < part.log.len() implies #[trigger] whole.log[i] == part.log[i] by {
        assert(part.log[i] == whole.log.subrange(0, part.log.len() as int)[i]);
    }
    assert forall|j: int| 0 <= j < part.edges.len() implies #[trigger] whole.edges[j]
        == part.edges[j] by {
        assert(part.edges[j] == whole.edges.subrange(0, part.edges.len() as int)[j]);
    }
}

/// One body begins as another that begins as a third.
pub proof fn begins_further(whole: Code, b: Code, a: Code)
    requires
        begins_as(whole, b),
        begins_as(b, a),
    ensures
        begins_as(whole, a),
{
    beginning_stands(whole, b);
    beginning_stands(b, a);
    assert(a.log =~= whole.log.subrange(0, a.log.len() as int));
    assert(a.edges =~= whole.edges.subrange(0, a.edges.len() as int));
}

/// What an operand stands for, some results being known.
pub open spec fn read(o: Outside, results: Map<usize, int>, v: Val) -> int {
    match v {
        Val::At(n) => results[n],
        Val::Int(k) => k as int,
        Val::Null => 0,
        Val::Zero => 0,
        Val::Words(x, y, z) => x + 0x1_0000_0000_0000_0000 * (y + 0x1_0000_0000_0000_0000 * z),
        Val::SizeOf(ty) => byte_count(o, ty) as int,
        _ => (o.values)(v),
    }
}

/// The arguments of a call.
pub open spec fn arguments(o: Outside, results: Map<usize, int>, args: Args) -> Seq<int>
    decreases args,
{
    match args {
        Args::Nil => Seq::empty(),
        Args::Cons(v, rest) => seq![read(o, results, v)] + arguments(o, results, *rest),
    }
}

impl Machine {
    /// The parts of an aggregate.
    pub open spec fn parts_of(self, v: Val) -> Map<usize, int> {
        match v {
            Val::At(n) => self.parts[n],
            _ => Map::empty(),
        }
    }

    /// The machine with a result, at the next instruction of the block.
    pub open spec fn gives(self, log: Seq<Entry>, x: int) -> Machine {
        Machine {
            results: self.results.insert(self.at as usize, x),
            at: seek(log, log[self.at as int].block, self.at + 1),
            ..self
        }
    }

    /// The machine at the beginning of another block.
    pub open spec fn goes(self, log: Seq<Entry>, block: usize) -> Machine {
        Machine {
            entered: self.results,
            at: seek(log, block, 0),
            from: log[self.at as int].block,
            ..self
        }
    }

    /// The machine one instruction later.
    #[verifier::opaque]
    pub open spec fn step(self, code: Code, o: Outside) -> Machine {
        let given = (o.values)(Val::At(self.at as usize));
        if self.at >= code.log.len() || self.returned is Some {
            self
        } else {
            match code.log[self.at as int].inst {
                Inst::Br(block) => self.goes(code.log, block),
                Inst::CondBr(p, yes, no) => if read(o, self.results, p) == 1 {
                    self.goes(code.log, yes)
                } else {
                    self.goes(code.log, no)
                },
                Inst::Ret(ty, v) => Machine {
                    returned: Some(read(o, self.results, v)),
                    returned_parts: self.parts_of(v),
                    ..self
                },
                Inst::RetVoid => Machine { returned: Some(0), ..self },
                Inst::Unreachable => self,
                Inst::Switch(ty, v, otherwise, cases) => self.goes(
                    code.log,
                    chosen(read(o, self.results, v), cases, otherwise),
                ),
                Inst::Checked(op, ty, a, b) => {
                    let x = exact_value(
                        op,
                        ty,
                        read(o, self.results, a) as u64,
                        read(o, self.results, b) as u64,
                    );
                    Machine {
                        parts: self.parts.insert(
                            self.at as usize,
                            Map::empty().insert(0usize, wrapped(ty, x) as int).insert(
                                1usize,
                                bit(overflows(op, ty, x)) as int,
                            ),
                        ),
                        ..self.gives(code.log, given)
                    }
                },
                Inst::Unchecked(ty, v) => self.gives(code.log, self.parts_of(v)[0]),
                Inst::Overflowed(ty, v) => self.gives(code.log, self.parts_of(v)[1]),
                Inst::Bin(op, ty, a, b) => if is_float_op(op) {
                    self.gives(
                        code.log,
                        (o.floats.bin)(op, ty, read(o, self.results, a), read(o, self.results, b)),
                    )
                } else {
                    self.gives(
                        code.log,
                        computed(
                            |v: Val| read(o, self.results, v) as u64,
                            code.log[self.at as int].inst,
                            given as u64,
                        ) as int,
                    )
                },
                Inst::FTest(pred, ty, a, b) => self.gives(
                    code.log,
                    bit(
                        float_test(
                            pred,
                            (o.floats.compare)(ty, read(o, self.results, a), read(o, self.results, b)),
                        ),
                    ) as int,
                ),
                Inst::FAbs(ty, a) => self.gives(
                    code.log,
                    (o.floats.magnitude)(ty, read(o, self.results, a)),
                ),
                Inst::FNeg(ty, a) => self.gives(
                    code.log,
                    (o.floats.opposite)(ty, read(o, self.results, a)),
                ),
                Inst::Phi(ty) => match incoming(code.edges, Val::At(self.at as usize), self.from) {
                    Some(v) => self.gives(code.log, read(o, self.entered, v)),
                    None => self.gives(code.log, given),
                },
                Inst::Field(ty, p, k) => self.gives(
                    code.log,
                    field_at(o, ty, read(o, self.results, p), k),
                ),
                Inst::Load(ty, p) => self.gives(
                    code.log,
                    number(self.memory, read(o, self.results, p), byte_count(o, ty)),
                ),
                Inst::Store(ty, v, p) => Machine {
                    memory: stored(
                        self.memory,
                        read(o, self.results, p),
                        read(o, self.results, v),
                        byte_count(o, ty),
                    ),
                    ..self.gives(code.log, given)
                },
                Inst::Extract(ty, v, k) => match v {
                    Val::Param(i) => self.gives(code.log, (o.parts)(i, k)),
                    Val::At(n) => if ty == LType::Table {
                        self.gives(code.log, table_part(o, self.results[n], k))
                    } else {
                        self.gives(code.log, self.parts_of(v)[k])
                    },
                    _ => self.gives(code.log, self.parts_of(v)[k]),
                },
                Inst::Insert(ty, whole, part_ty, v, k) => Machine {
                    parts: self.parts.insert(
                        self.at as usize,
                        self.parts_of(whole).insert(k, read(o, self.results, v)),
                    ),
                    ..self.gives(
                        code.log,
                        inserted(
                            o,
                            ty,
                            read(o, self.results, whole),
                            part_ty,
                            read(o, self.results, v),
                            k,
                        ),
                    )
                },
                Inst::Call(callee, args) => {
                    let (x, memory) = (o.calls)(
                        callee,
                        arguments(o, self.results, args),
                        self.memory,
                    );
                    Machine { memory: memory, ..self.gives(code.log, x) }
                },
                Inst::Gep(ty, p, i) => self.gives(
                    code.log,
                    element_at(o, ty, read(o, self.results, p), read(o, self.results, i)),
                ),
                Inst::GepIn(ty, p, i) => self.gives(
                    code.log,
                    element_at(o, ty, read(o, self.results, p), read(o, self.results, i)),
                ),
                inst => self.gives(
                    code.log,
                    computed(|v: Val| read(o, self.results, v) as u64, inst, given as u64) as int,
                ),
            }
        }
    }

    /// The machine `n` instructions later.
    pub open spec fn after(self, code: Code, o: Outside, n: nat) -> Machine
        decreases n,
    {
        if n == 0 {
            self
        } else {
            self.step(code, o).after(code, o, (n - 1) as nat)
        }
    }

    /// The machine comes to a state of some sort.
    pub open spec fn comes_to(self, code: Code, o: Outside, goal: spec_fn(Machine) -> bool) -> bool {
        exists|n: nat| goal(#[trigger] self.after(code, o, n))
    }

    /// The function gives back `x`.
    pub open spec fn gives_back(self, code: Code, o: Outside, x: int) -> bool {
        self.comes_to(code, o, gave(x))
    }

    /// What a state comes to, this one comes to.
    pub open spec fn leads_to(self, code: Code, o: Outside, later: Machine) -> bool {
        forall|goal: spec_fn(Machine) -> bool|
            later.comes_to(code, o, goal) ==> #[trigger] self.comes_to(code, o, goal)
    }

    /// What the next state comes to, this one comes to.
    pub open spec fn runs_on(self, code: Code, o: Outside) -> bool {
        forall|goal: spec_fn(Machine) -> bool|
            self.step(code, o).comes_to(code, o, goal) ==> #[trigger] self.comes_to(code, o, goal)
    }
}

/// The function has given back `x`.
pub open spec fn gave(x: int) -> spec_fn(Machine) -> bool {
    |l: Machine| l.returned == Some(x)
}

/// A machine that is about to run the body from the start.
pub open spec fn booted(code: Code, memory: Memory) -> Machine {
    Machine {
        results: Map::empty(),
        entered: Map::empty(),
        parts: Map::empty(),
        memory: memory,
        at: seek(code.log, 0, 0),
        from: 0,
        returned: None,
        returned_parts: Map::empty(),
    }
}

impl Machine {
    /// The machine is about to run an instruction.
    pub open spec fn faces(self, code: Code, inst: Inst) -> bool {
        &&& self.at < code.log.len()
        &&& self.returned is None
        &&& code.log[self.at as int].inst == inst
    }

    /// The instruction after this one belongs to the same block.
    pub open spec fn flows(self, code: Code) -> bool {
        &&& self.at + 1 < code.log.len()
        &&& code.log[self.at as int + 1].block == code.log[self.at as int].block
    }

    /// The machine with a result, at the next instruction.
    pub open spec fn with(self, x: int) -> Machine {
        Machine { results: self.results.insert(self.at as usize, x), at: self.at + 1, ..self }
    }
}

/// A binary operator computes and goes on.
pub proof fn combines(m: Machine, code: Code, o: Outside, op: BinOp, ty: LType, a: Val, b: Val)
    requires
        m.faces(code, Inst::Bin(op, ty, a, b)),
        m.flows(code),
    ensures
        m.runs_on(code, o),
        bin_value(op, ty, read(o, m.results, a) as u64, read(o, m.results, b) as u64) matches Some(x)
            ==> m.step(code, o) == m.with(x as int),
{
    reveal(Machine::step);
    next_counts(m, code, o);
}

/// A product that is a word.
pub proof fn multiplies(m: Machine, code: Code, o: Outside, a: Val, b: Val)
    requires
        m.faces(code, Inst::Bin(BinOp::Mul, LType::I64, a, b)),
        m.flows(code),
        0 <= read(o, m.results, a) <= u64::MAX,
        0 <= read(o, m.results, b) <= u64::MAX,
        0 <= read(o, m.results, a) * read(o, m.results, b) <= u64::MAX,
    ensures
        m.runs_on(code, o),
        m.step(code, o) == m.with(read(o, m.results, a) * read(o, m.results, b)),
{
    combines(m, code, o, BinOp::Mul, LType::I64, a, b);
    let (x, y) = (read(o, m.results, a), read(o, m.results, b));
    assert(x as u64 == x && y as u64 == y);
    assert((x as u64) * (y as u64) == x * y);
}

/// A test tells and goes on.
pub proof fn tests(m: Machine, code: Code, o: Outside, pred: Pred, ty: LType, a: Val, b: Val)
    requires
        m.faces(code, Inst::ITest(pred, ty, a, b)),
        m.flows(code),
    ensures
        m.runs_on(code, o),
        m.step(code, o) == m.with(
            bit(
                test_value(pred, ty, read(o, m.results, a) as u64, read(o, m.results, b) as u64),
            ) as int,
        ),
{
    reveal(Machine::step);
    next_counts(m, code, o);
}

/// A cast converts and goes on.
pub proof fn converts(m: Machine, code: Code, o: Outside, op: CastOp, from: LType, a: Val, to: LType)
    requires
        m.faces(code, Inst::Cast(op, from, a, to)),
        m.flows(code),
    ensures
        m.runs_on(code, o),
        cast_value(op, from, read(o, m.results, a) as u64, to) matches Some(x) ==> m.step(code, o)
            == m.with(x as int),
{
    reveal(Machine::step);
    next_counts(m, code, o);
}

/// A selection picks and goes on.
pub proof fn picks(m: Machine, code: Code, o: Outside, ty: LType, p: Val, a: Val, b: Val)
    requires
        m.faces(code, Inst::Select(ty, p, a, b)),
        m.flows(code),
        0 <= read(o, m.results, a) <= u64::MAX,
        0 <= read(o, m.results, b) <= u64::MAX,
        0 <= read(o, m.results, p) <= 1,
    ensures
        m.runs_on(code, o),
        m.step(code, o) == m.with(
            if read(o, m.results, p) == 1 {
                read(o, m.results, a)
            } else {
                read(o, m.results, b)
            },
        ),
{
    reveal(Machine::step);
    next_counts(m, code, o);
}

/// An address is moved by a number of bytes.
pub proof fn moves(m: Machine, code: Code, o: Outside, p: Val, i: Val)
    requires
        m.faces(code, Inst::Gep(LType::I8, p, i)) || m.faces(code, Inst::GepIn(LType::I8, p, i)),
        m.flows(code),
    ensures
        m.runs_on(code, o),
        m.step(code, o) == m.with(
            wrapped(LType::I64, read(o, m.results, p) as u64 + read(o, m.results, i) as u64) as int,
        ),
{
    reveal(Machine::step);
    next_counts(m, code, o);
}

/// An address is moved by a number of elements.
pub proof fn moves_elements(m: Machine, code: Code, o: Outside, ty: LType, p: Val, i: Val)
    requires
        m.faces(code, Inst::Gep(ty, p, i)) || m.faces(code, Inst::GepIn(ty, p, i)),
        m.flows(code),
    ensures
        m.runs_on(code, o),
        m.step(code, o) == m.with(element_at(o, ty, read(o, m.results, p), read(o, m.results, i))),
{
    reveal(Machine::step);
    next_counts(m, code, o);
}

/// The address of a field lies where the field lies in its aggregate.
pub proof fn addresses(m: Machine, code: Code, o: Outside, ty: LType, p: Val, k: usize)
    requires
        m.faces(code, Inst::Field(ty, p, k)),
        m.flows(code),
    ensures
        m.runs_on(code, o),
        m.step(code, o) == m.with(field_at(o, ty, read(o, m.results, p), k)),
{
    reveal(Machine::step);
    next_counts(m, code, o);
}

/// A load reads and goes on.
pub proof fn loads(m: Machine, code: Code, o: Outside, ty: LType, p: Val)
    requires
        m.faces(code, Inst::Load(ty, p)),
        m.flows(code),
    ensures
        m.runs_on(code, o),
        m.step(code, o) == m.with(
            number(m.memory, read(o, m.results, p), byte_count(o, ty)),
        ),
{
    reveal(Machine::step);
    next_counts(m, code, o);
}

/// A phi takes the value of its edge and goes on.
pub proof fn takes(m: Machine, code: Code, o: Outside, ty: LType, v: Val)
    requires
        m.faces(code, Inst::Phi(ty)),
        m.flows(code),
        incoming(code.edges, Val::At(m.at as usize), m.from) == Some(v),
    ensures
        m.runs_on(code, o),
        m.step(code, o) == m.with(read(o, m.entered, v)),
{
    reveal(Machine::step);
    next_counts(m, code, o);
}

/// A part of a table value is taken out.
pub proof fn takes_out(m: Machine, code: Code, o: Outside, n: usize, k: usize)
    requires
        m.faces(code, Inst::Extract(LType::Table, Val::At(n), k)),
        m.flows(code),
    ensures
        m.runs_on(code, o),
        m.step(code, o) == m.with(table_part(o, m.results[n], k)),
{
    reveal(Machine::step);
    next_counts(m, code, o);
}

/// A stack slot is where it is.
pub proof fn finds_room(m: Machine, code: Code, o: Outside, ty: LType)
    requires
        m.faces(code, Inst::Alloca(ty)),
        m.flows(code),
    ensures
        m.runs_on(code, o),
        m.step(code, o) == m.with((o.values)(Val::At(m.at as usize)) as u64 as int),
{
    reveal(Machine::step);
    next_counts(m, code, o);
}

/// A part of a parameter is taken out.
pub proof fn extracts(m: Machine, code: Code, o: Outside, ty: LType, i: usize, k: usize)
    requires
        m.faces(code, Inst::Extract(ty, Val::Param(i), k)),
        m.flows(code),
    ensures
        m.runs_on(code, o),
        m.step(code, o) == m.with((o.parts)(i, k)),
{
    reveal(Machine::step);
    next_counts(m, code, o);
}

/// A part of an aggregate other than a table is taken out.
pub proof fn part_is_taken(m: Machine, code: Code, o: Outside, ty: LType, v: Val, k: usize)
    requires
        m.faces(code, Inst::Extract(ty, v, k)),
        m.flows(code),
        ty != LType::Table,
        v is At,
    ensures
        m.runs_on(code, o),
        m.step(code, o) == m.with(m.parts_of(v)[k]),
{
    reveal(Machine::step);
    next_counts(m, code, o);
}

/// A part is put in and the machine goes on.
pub proof fn inserts(
    m: Machine,
    code: Code,
    o: Outside,
    ty: LType,
    whole: Val,
    part_ty: LType,
    v: Val,
    k: usize,
)
    requires
        m.faces(code, Inst::Insert(ty, whole, part_ty, v, k)),
        m.flows(code),
    ensures
        m.runs_on(code, o),
        m.step(code, o) == (Machine {
            parts: m.parts.insert(
                m.at as usize,
                m.parts_of(whole).insert(k, read(o, m.results, v)),
            ),
            ..m.with(
                inserted(
                    o,
                    ty,
                    read(o, m.results, whole),
                    part_ty,
                    read(o, m.results, v),
                    k,
                ),
            )
        }),
{
    reveal(Machine::step);
    next_counts(m, code, o);
}

/// A store writes and goes on.
pub proof fn stores(m: Machine, code: Code, o: Outside, ty: LType, v: Val, p: Val)
    requires
        m.faces(code, Inst::Store(ty, v, p)),
        m.flows(code),
    ensures
        m.runs_on(code, o),
        m.step(code, o) == (Machine {
            memory: stored(
                m.memory,
                read(o, m.results, p),
                read(o, m.results, v),
                byte_count(o, ty),
            ),
            ..m.with((o.values)(Val::At(m.at as usize)))
        }),
{
    reveal(Machine::step);
    next_counts(m, code, o);
}

/// A call does what the callee does and goes on.
pub proof fn calls(m: Machine, code: Code, o: Outside, callee: Callee, args: Args)
    requires
        m.faces(code, Inst::Call(callee, args)),
        m.flows(code),
    ensures
        m.runs_on(code, o),
        ({
            let (x, memory) = (o.calls)(callee, arguments(o, m.results, args), m.memory);
            m.step(code, o) == Machine { memory: memory, ..m.with(x) }
        }),
{
    reveal(Machine::step);
    next_counts(m, code, o);
}

/// A jump goes to the first instruction of its block.
pub proof fn jumps(m: Machine, code: Code, o: Outside, block: usize)
    requires
        m.faces(code, Inst::Br(block)),
    ensures
        m.runs_on(code, o),
        m.step(code, o) == m.goes(code.log, block),
{
    reveal(Machine::step);
    next_counts(m, code, o);
}

/// A switch goes where its word says.
pub proof fn switches(m: Machine, code: Code, o: Outside, ty: LType, v: Val, otherwise: usize, cases: Cases)
    requires
        m.faces(code, Inst::Switch(ty, v, otherwise, cases)),
    ensures
        m.runs_on(code, o),
        m.step(code, o) == m.goes(code.log, chosen(read(o, m.results, v), cases, otherwise)),
{
    reveal(Machine::step);
    next_counts(m, code, o);
}

/// A checked operation leaves its result and whether it overflowed.
pub proof fn checks(m: Machine, code: Code, o: Outside, op: Checked, ty: LType, a: Val, b: Val)
    requires
        m.faces(code, Inst::Checked(op, ty, a, b)),
        m.flows(code),
    ensures
        m.runs_on(code, o),
        ({
            let x = exact_value(op, ty, read(o, m.results, a) as u64, read(o, m.results, b) as u64);
            let l = m.step(code, o);
            &&& l == Machine { parts: l.parts, ..m.with((o.values)(Val::At(m.at as usize))) }
            &&& l.parts[m.at as usize][0] == wrapped(ty, x)
            &&& l.parts[m.at as usize][1] == bit(overflows(op, ty, x))
        }),
{
    reveal(Machine::step);
    next_counts(m, code, o);
}

/// The result of a checked operation, or whether it overflowed.
pub proof fn tells_overflow(m: Machine, code: Code, o: Outside, ty: LType, v: Val)
    requires
        m.faces(code, Inst::Unchecked(ty, v)) || m.faces(code, Inst::Overflowed(ty, v)),
        m.flows(code),
    ensures
        m.runs_on(code, o),
        m.step(code, o) == m.with(
            m.parts_of(v)[if code.log[m.at as int].inst is Overflowed {
                1
            } else {
                0
            }],
        ),
{
    reveal(Machine::step);
    next_counts(m, code, o);
}

/// Floats are combined, compared and taken by their magnitude.
pub proof fn floats(m: Machine, code: Code, o: Outside)
    requires
        m.at < code.log.len(),
        m.returned is None,
        m.flows(code),
    ensures
        m.runs_on(code, o),
        match code.log[m.at as int].inst {
            Inst::Bin(op, ty, a, b) => is_float_op(op) ==> m.step(code, o) == m.with(
                (o.floats.bin)(op, ty, read(o, m.results, a), read(o, m.results, b)),
            ),
            Inst::FTest(pred, ty, a, b) => m.step(code, o) == m.with(
                bit(
                    float_test(
                        pred,
                        (o.floats.compare)(ty, read(o, m.results, a), read(o, m.results, b)),
                    ),
                ) as int,
            ),
            Inst::FAbs(ty, a) => m.step(code, o) == m.with(
                (o.floats.magnitude)(ty, read(o, m.results, a)),
            ),
            Inst::FNeg(ty, a) => m.step(code, o) == m.with(
                (o.floats.opposite)(ty, read(o, m.results, a)),
            ),
            Inst::Not(ty, a) => m.step(code, o) == m.with(
                wrapped(ty, -1 - (read(o, m.results, a) as u64)) as int,
            ),
            Inst::Neg(ty, a) => m.step(code, o) == m.with(
                wrapped(ty, -(read(o, m.results, a) as u64)) as int,
            ),
            _ => true,
        },
{
    reveal(Machine::step);
    next_counts(m, code, o);
}

/// A return without a value ends the run.
pub proof fn stops(m: Machine, code: Code, o: Outside)
    requires
        m.faces(code, Inst::RetVoid),
    ensures
        m.runs_on(code, o),
        m.step(code, o) == (Machine { returned: Some(0), ..m }),
{
    reveal(Machine::step);
    next_counts(m, code, o);
}

/// A branch goes where its condition says.
pub proof fn branches(m: Machine, code: Code, o: Outside, p: Val, yes: usize, no: usize)
    requires
        m.faces(code, Inst::CondBr(p, yes, no)),
    ensures
        m.runs_on(code, o),
        m.step(code, o) == if read(o, m.results, p) == 1 {
            m.goes(code.log, yes)
        } else {
            m.goes(code.log, no)
        },
{
    reveal(Machine::step);
    next_counts(m, code, o);
}

/// A return ends the run with its operand and its parts.
pub proof fn ends(m: Machine, code: Code, o: Outside, ty: LType, v: Val)
    requires
        m.faces(code, Inst::Ret(ty, v)),
    ensures
        m.runs_on(code, o),
        m.step(code, o) == (Machine {
            returned: Some(read(o, m.results, v)),
            returned_parts: m.parts_of(v),
            ..m
        }),
{
    reveal(Machine::step);
    next_counts(m, code, o);
}

/// A return gives back its operand.
pub proof fn finishes(m: Machine, code: Code, o: Outside, ty: LType, v: Val)
    requires
        m.faces(code, Inst::Ret(ty, v)),
    ensures
        m.gives_back(code, o, read(o, m.results, v)),
{
    reveal(Machine::step);
    next_counts(m, code, o);
    arrives(m.step(code, o), code, o, gave(read(o, m.results, v)));
}

/// What is so already is come to.
pub proof fn arrives(m: Machine, code: Code, o: Outside, goal: spec_fn(Machine) -> bool)
    requires
        goal(m),
    ensures
        m.comes_to(code, o, goal),
{
    assert(goal(m.after(code, o, 0)));
}

/// Running for a while, then for another while.
proof fn running_adds_up(m: Machine, code: Code, o: Outside, a: nat, b: nat)
    ensures
        m.after(code, o, a + b) == m.after(code, o, a).after(code, o, b),
    decreases a,
{
    if a > 0 {
        running_adds_up(m.step(code, o), code, o, (a - 1) as nat, b);
    }
}

/// A way to one sort of state goes on to where every such state leads.
pub proof fn goes_on(
    m: Machine,
    code: Code,
    o: Outside,
    half: spec_fn(Machine) -> bool,
    goal: spec_fn(Machine) -> bool,
)
    requires
        m.comes_to(code, o, half),
        forall|l: Machine| half(l) ==> #[trigger] l.comes_to(code, o, goal),
    ensures
        m.comes_to(code, o, goal),
{
    let a = choose|n: nat| half(#[trigger] m.after(code, o, n));
    let l = m.after(code, o, a);
    assert(l.comes_to(code, o, goal));
    let b = choose|n: nat| goal(#[trigger] l.after(code, o, n));
    running_adds_up(m, code, o, a, b);
    assert(goal(m.after(code, o, a + b)));
}

/// What the next state comes to, this one comes to.
pub proof fn next_counts(m: Machine, code: Code, o: Outside)
    ensures
        m.runs_on(code, o),
{
    assert forall|goal: spec_fn(Machine) -> bool| m.step(code, o).comes_to(code, o, goal) implies
        #[trigger] m.comes_to(code, o, goal) by {
        let n = choose|n: nat| goal(#[trigger] m.step(code, o).after(code, o, n));
        assert(goal(m.after(code, o, n + 1)));
    }
}

} // verus!
