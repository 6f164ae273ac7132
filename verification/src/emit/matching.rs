//! What a binary match comes to: its success bit, and what its bindings
//! hold.

use vstd::arithmetic::power2::{lemma2_to64, pow2};
use vstd::prelude::*;
use crate::emit::binary_match::{
    bind_int_code, binary_match_code, binding_type, byte_aligned, byte_is_placed, byte_shift,
    extend_code, extended_bits, extract_int_code, greedy_tail_code, guarded_code, literal_bytes_code,
    literal_int_code, low_mask, narrow_code, placed, segment_code, segment_value, segments_code,
    TAIL_HEADER_BYTES,
};
use crate::emit::frame::Scope;
use crate::emit::heap_layout::{LENGTH_OFFSET, NEG_LENGTH};
use crate::intrinsics::hashtable::writing::stored_elsewhere;
use crate::ir::{BinaryEndian, BinarySign, LoweredBinaryMatchLayout, LoweredBinaryPattern};
use crate::llvm::{
    a1, a3, gep_in, iand, itest, num, BinOp, Callee, CastOp, Code, Entry, Inst, LType, Pred, Val,
};
use crate::memory::{
    address_in_range, all_taken, apart, big_number, big_number_fits, byte, byte_limit,
    byte_limit_is_power, heap_calls, in_memory, malloc_call, memcpy_call, number, number_of_bytes,
    sound, starved, store_is_read_back, stored, unless_starved, Memory,
};
use crate::runtime::Rt;
use crate::semantics::{
    arguments, arrives, beginning_stands, begins_as, bit, branches, byte_count, calls, combines,
    converts, incoming_finds, jumps, loads, moves, read, seek_finds, stores, takes, modulus, tests,
    tidy, wrapped, Machine, Outside,
};

verus! {

/// A code goes on from another in the same block.
pub open spec fn straight(s: Code, t: Code) -> bool {
    &&& s.log.is_prefix_of(t.log)
    &&& s.texts.is_prefix_of(t.texts)
    &&& t.edges == s.edges
    &&& t.blocks == s.blocks
    &&& t.cur == s.cur
    &&& forall|i: int| s.log.len() <= i < t.log.len() ==> (#[trigger] t.log[i]).block == s.cur
}

/// Going on and going on again.
proof fn straight_on(s: Code, t: Code, u: Code)
    requires
        straight(s, t),
        straight(t, u),
    ensures
        straight(s, u),
{
    assert(s.log =~= u.log.subrange(0, s.log.len() as int)) by {
        assert forall|i: int| 0 <= i < s.log.len() implies #[trigger] s.log[i] == u.log[i] by {
            assert(s.log[i] == t.log.subrange(0, s.log.len() as int)[i]);
            assert(t.log[i] == u.log.subrange(0, t.log.len() as int)[i]);
        }
    }
    assert(s.texts =~= u.texts.subrange(0, s.texts.len() as int)) by {
        assert forall|i: int| 0 <= i < s.texts.len() implies #[trigger] s.texts[i] == u.texts[i] by {
            assert(s.texts[i] == t.texts.subrange(0, s.texts.len() as int)[i]);
            assert(t.texts[i] == u.texts.subrange(0, t.texts.len() as int)[i]);
        }
    }
    assert forall|i: int| s.log.len() <= i < u.log.len() implies (#[trigger] u.log[i]).block == s.cur by {
        if i < t.log.len() {
            assert(t.log[i] == u.log.subrange(0, t.log.len() as int)[i]);
        }
    }
}

/// One more instruction goes on.
proof fn straight_step(s: Code, t: Code, inst: Inst)
    requires
        straight(s, t),
    ensures
        straight(s, t.i(inst)),
{
    let u = t.i(inst);
    assert(t.log =~= u.log.subrange(0, t.log.len() as int));
    assert(t.texts =~= u.texts.subrange(0, t.texts.len() as int));
    assert(straight(t, u));
    straight_on(s, t, u);
}

/// Nothing goes on.
proof fn straight_stay(s: Code)
    ensures
        straight(s, s),
{
    assert(s.log =~= s.log.subrange(0, s.log.len() as int));
    assert(s.texts =~= s.texts.subrange(0, s.texts.len() as int));
}

/// The code of a fragment stands in a body, and the body goes on in its
/// block.
pub open spec fn is_in(code: Code, s: Code, t: Code) -> bool {
    &&& straight(s, t)
    &&& t.log.is_prefix_of(code.log)
    &&& t.log.len() < code.log.len() <= usize::MAX
    &&& code.log[t.log.len() as int].block == s.cur
}

/// A part of a fragment that stands in a body stands in it.
proof fn part_is_in(code: Code, s: Code, t: Code, u: Code)
    requires
        is_in(code, s, u),
        straight(s, t),
        straight(t, u),
    ensures
        is_in(code, s, t),
        is_in(code, t, u),
{
    assert forall|i: int| 0 <= i < u.log.len() implies #[trigger] code.log[i] == u.log[i] by {
        assert(u.log[i] == code.log.subrange(0, u.log.len() as int)[i]);
    }
    assert(t.log =~= code.log.subrange(0, t.log.len() as int)) by {
        assert forall|i: int| 0 <= i < t.log.len() implies #[trigger] t.log[i] == code.log[i] by {
            assert(t.log[i] == u.log.subrange(0, t.log.len() as int)[i]);
        }
    }
}

/// What a fragment records, its body records.
proof fn recorded(code: Code, s: Code, t: Code)
    requires
        is_in(code, s, t),
    ensures
        forall|i: int| 0 <= i < t.log.len() ==> #[trigger] code.log[i] == t.log[i],
        forall|i: int| s.log.len() <= i <= t.log.len() ==> (#[trigger] code.log[i]).block == s.cur,
{
    assert forall|i: int| 0 <= i < t.log.len() implies #[trigger] code.log[i] == t.log[i] by {
        assert(t.log[i] == code.log.subrange(0, t.log.len() as int)[i]);
    }
    assert forall|i: int| s.log.len() <= i <= t.log.len() implies (#[trigger] code.log[i]).block == s.cur by {
        if i < t.log.len() {
            assert(code.log[i] == t.log[i]);
        }
    }
}

/// The machine has gone through a fragment: whatever was known is known.
pub open spec fn went(code: Code, o: Outside, s: Code, t: Code, m: Machine, l: Machine) -> bool {
    &&& m.leads_to(code, o, l)
    &&& l.at == t.log.len()
    &&& l.returned is None
    &&& forall|i: usize| i < s.log.len() ==> #[trigger] l.results[i] == m.results[i]
}

/// Reading bytes goes straight on.
proof fn extract_is_straight(s: Code, payload: Val, byte_offset: u64, n: u64, endian: BinaryEndian, k: nat)
    ensures
        straight(s, extract_int_code(s, payload, byte_offset, n, endian, k).0),
        extract_int_code(s, payload, byte_offset, n, endian, k).0.log.len() <= s.log.len() + 5 * k,
    decreases k,
{
    if k == 0 {
        straight_stay(s);
    } else {
        let (t, acc) = extract_int_code(s, payload, byte_offset, n, endian, (k - 1) as nat);
        extract_is_straight(s, payload, byte_offset, n, endian, (k - 1) as nat);
        let gep = gep_in(payload, num((byte_offset + k - 1) as u64));
        let load = Inst::Load(LType::I8, t.v(0));
        let cast = Inst::Cast(CastOp::ZExt, LType::I8, t.v(1), LType::I64);
        let shift = byte_shift(endian, n, (k - 1) as u64);
        straight_step(s, t, gep);
        straight_step(s, t.i(gep), load);
        straight_step(s, t.i(gep).i(load), cast);
        let u = t.i(gep).i(load).i(cast);
        if shift > 0 {
            let shl = Inst::Bin(BinOp::Shl, LType::I64, t.v(2), num(shift));
            straight_step(s, u, shl);
            straight_step(s, u.i(shl), Inst::Bin(BinOp::Or, LType::I64, acc, t.v(3)));
        } else {
            straight_step(s, u, Inst::Bin(BinOp::Or, LType::I64, acc, t.v(2)));
        }
    }
}

/// The machine reads bytes as a number.
#[verifier::spinoff_prover]
#[verifier::rlimit(60)]
proof fn extract_runs(
    code: Code,
    o: Outside,
    s: Code,
    m: Machine,
    payload: Val,
    byte_offset: u64,
    n: u64,
    endian: BinaryEndian,
    k: nat,
) -> (l: Machine)
    requires
        is_in(code, s, extract_int_code(s, payload, byte_offset, n, endian, k).0),
        s.defines(payload),
        m.at == s.log.len(),
        m.returned is None,
        0 <= read(o, m.results, payload),
        read(o, m.results, payload) + byte_offset + n <= u64::MAX,
        k <= n <= 8,
    ensures
        ({
            let (t, acc) = extract_int_code(s, payload, byte_offset, n, endian, k);
            let p = read(o, m.results, payload) + byte_offset;
            &&& went(code, o, s, t, m, l)
            &&& l.memory == m.memory
            &&& t.defines(acc)
            &&& read(o, l.results, acc) == placed(m.memory, p, endian, n, k)
            &&& 0 <= placed(m.memory, p, endian, n, k) <= u64::MAX
        }),
    decreases k,
{
    let p = read(o, m.results, payload) + byte_offset;
    let (whole, r) = extract_int_code(s, payload, byte_offset, n, endian, k);
    if k == 0 {
        assert(placed(m.memory, p, endian, n, 0) == 0);
        m
    } else {
        let (t, acc) = extract_int_code(s, payload, byte_offset, n, endian, (k - 1) as nat);
        extract_is_straight(s, payload, byte_offset, n, endian, (k - 1) as nat);
        extract_is_straight(s, payload, byte_offset, n, endian, k);
        assert(straight(t, whole)) by {
            assert(t.log =~= whole.log.subrange(0, t.log.len() as int));
            assert(t.texts =~= whole.texts.subrange(0, t.texts.len() as int));
        }
        part_is_in(code, s, t, whole);
        recorded(code, t, whole);
        let a = extract_runs(code, o, s, m, payload, byte_offset, n, endian, (k - 1) as nat);
        let at = (byte_offset + k - 1) as u64;
        let shift = byte_shift(endian, n, (k - 1) as u64);
        let b = byte(m.memory, p + k - 1) as u64;
        let x = read(o, a.results, acc) as u64;
        byte_is_placed(m.memory, p, endian, n, k, x);
        assert(read(o, a.results, payload) == read(o, m.results, payload));
        moves(a, code, o, payload, num(at));
        let a1 = a.step(code, o);
        address_in_range(p + k - 1);
        assert(a1.results[t.log.len() as usize] == p + k - 1);
        assert(whole.log[t.log.len() as int + 1].inst == Inst::Load(LType::I8, t.v(0)));
        loads(a1, code, o, LType::I8, t.v(0));
        let a2 = a1.step(code, o);
        assert(a2.results[(t.log.len() + 1) as usize] == b) by {
            reveal_with_fuel(number, 2);
        }
        converts(a2, code, o, CastOp::ZExt, LType::I8, t.v(1), LType::I64);
        let a3 = a2.step(code, o);
        assert(a3.results[(t.log.len() + 2) as usize] == b);
        assert(read(o, a3.results, acc) == x);
        if shift > 0 {
            combines(a3, code, o, BinOp::Shl, LType::I64, t.v(2), num(shift));
            let a4 = a3.step(code, o);
            assert(a4.results[(t.log.len() + 3) as usize] == b << shift) by {
                vstd::bits::lemma_u64_shl_is_mul(b, shift);
                vstd::arithmetic::div_mod::lemma_small_mod((b << shift) as nat, 0x1_0000_0000_0000_0000);
            }
            assert(read(o, a4.results, acc) == x);
            combines(a4, code, o, BinOp::Or, LType::I64, acc, t.v(3));
            a4.step(code, o)
        } else {
            combines(a3, code, o, BinOp::Or, LType::I64, acc, t.v(2));
            a3.step(code, o)
        }
    }
}

/// A subject: where its payload lies, how many bits it has, and its bytes.
pub struct Subject {
    pub at: u64,
    pub bits: u64,
    pub bytes: Seq<u8>,
}

impl Subject {
    /// The subject lies in memory, behind its length.
    pub open spec fn lies(self, memory: Memory) -> bool {
        let n = self.bytes.len() as int;
        &&& in_memory(self.at - LENGTH_OFFSET, LENGTH_OFFSET + n)
        &&& all_taken(memory, self.at - LENGTH_OFFSET, LENGTH_OFFSET + n)
        &&& number(memory, self.at - LENGTH_OFFSET, 8) == self.bits
        &&& forall|i: int| 0 <= i < n ==> #[trigger] byte(memory, self.at + i) == self.bytes[i]
        &&& self.bits <= 8 * n < self.bits + 8
        &&& self.bits + 64 <= u64::MAX
    }

    /// The number in `n` bytes from the offset on.
    pub open spec fn number(self, offset: int, n: int, endian: BinaryEndian) -> int
        decreases n,
    {
        if n <= 0 {
            0
        } else {
            match endian {
                BinaryEndian::Big => 0x100 * self.number(offset, n - 1, endian) + self.bytes[offset + n
                    - 1],
                BinaryEndian::Little => self.bytes[offset] + 0x100 * self.number(
                    offset + 1,
                    n - 1,
                    endian,
                ),
            }
        }
    }

    /// The subject is as long as the pattern asks.
    pub open spec fn is_long(self, layout: LoweredBinaryMatchLayout) -> bool {
        if layout.has_greedy_tail {
            self.bits / 8 >= layout.fixed_bits / 8
        } else {
            self.bits / 8 == layout.fixed_bits / 8
        }
    }

    /// The subject has what a segment asks for: the low bits of an integer
    /// literal, or literal bytes. Other segments ask for nothing.
    pub open spec fn has(self, segment: LoweredBinaryPattern) -> bool {
        match segment {
            LoweredBinaryPattern::LiteralInt { bit_offset, endian, value, width } => self.number(
                bit_offset as int / 8,
                width as int / 8,
                endian,
            ) as u64 & low_mask(width) == value & low_mask(width),
            LoweredBinaryPattern::LiteralBytes { bit_offset, bytes } => forall|i: int|
                0 <= i < bytes@.len() ==> #[trigger] self.bytes[bit_offset as int / 8 + i] == bytes@[i],
            _ => true,
        }
    }

    /// The subject matches.
    pub open spec fn matches(
        self,
        layout: LoweredBinaryMatchLayout,
        segments: Seq<LoweredBinaryPattern>,
    ) -> bool {
        &&& self.is_long(layout)
        &&& forall|i: int| 0 <= i < segments.len() ==> self.has(#[trigger] segments[i])
    }
}

/// What memory holds of a subject is the subject's.
proof fn subject_number(s: Subject, memory: Memory, offset: int, n: nat, endian: BinaryEndian)
    requires
        s.lies(memory),
        0 <= offset,
        offset + n <= s.bytes.len(),
        n <= 8,
    ensures
        s.number(offset, n as int, endian) == match endian {
            BinaryEndian::Big => big_number(memory, s.at + offset, n),
            BinaryEndian::Little => number(memory, s.at + offset, n),
        },
    decreases n,
{
    if n > 0 {
        match endian {
            BinaryEndian::Big => {
                subject_number(s, memory, offset, (n - 1) as nat, endian);
                assert(byte(memory, s.at + (offset + n - 1)) == s.bytes[offset + n - 1]);
            },
            BinaryEndian::Little => {
                subject_number(s, memory, offset + 1, (n - 1) as nat, endian);
                assert(byte(memory, s.at + offset) == s.bytes[offset]);
            },
        }
    }
}

/// A segment lies within the fixed part of the pattern, on whole bytes, and
/// an integer is a word at most. A greedy tail begins there.
pub open spec fn sits(layout: LoweredBinaryMatchLayout, segment: LoweredBinaryPattern) -> bool {
    match segment {
        LoweredBinaryPattern::LiteralInt { bit_offset, width, .. } => bit_offset + width
            <= layout.fixed_bits && width <= 64,
        LoweredBinaryPattern::LiteralBytes { bit_offset, bytes } => bit_offset % 8 == 0 && bit_offset + 8
            * bytes@.len() <= layout.fixed_bits,
        LoweredBinaryPattern::BindInt { bit_offset, width, .. } => bit_offset + width
            <= layout.fixed_bits && width <= 64,
        LoweredBinaryPattern::Discard => true,
        LoweredBinaryPattern::GreedyTail { bit_offset, .. } => bit_offset <= layout.fixed_bits,
    }
}

/// Where a segment stores what it binds, and how many bytes that takes.
pub open spec fn binding(o: Outside, sc: Scope, segment: LoweredBinaryPattern) -> Option<(int, nat)> {
    match segment {
        LoweredBinaryPattern::BindInt { local, ty, .. } => match (binding_type(ty), sc.local(local)) {
            (Some(t), Some(v)) => Some(((o.values)(v), byte_count(o, t))),
            _ => None,
        },
        LoweredBinaryPattern::GreedyTail { local: Some(id), .. } => match sc.local(id) {
            Some(v) => Some(((o.values)(v), 8)),
            None => None,
        },
        _ => None,
    }
}

/// At `r` lies a tail of the subject: its length in bits before it, and its
/// bytes.
pub open spec fn holds_tail(memory: Memory, r: int, s: Subject, bit_offset: u64) -> bool {
    let from = bit_offset as int / 8;
    &&& number(memory, r - TAIL_HEADER_BYTES, 8) == s.bits - bit_offset
    &&& forall|i: int|
        0 <= i < s.bytes.len() - from ==> #[trigger] byte(memory, r + i) == s.bytes[from + i]
}

/// What a segment binds is in its local: an integer as the number that its
/// bytes make up, extended by its sign and cut to its type; a tail as the
/// address of a copy of it.
pub open spec fn bound(
    o: Outside,
    sc: Scope,
    s: Subject,
    memory: Memory,
    segment: LoweredBinaryPattern,
) -> bool {
    binding(o, sc, segment) matches Some((q, n)) ==> match segment {
        LoweredBinaryPattern::BindInt { bit_offset, endian, sign, ty, width, .. } => number(memory, q, n)
            == wrapped(
            binding_type(ty)->0,
            segment_value(
                s.number(bit_offset as int / 8, width as int / 8, endian) as u64,
                sign,
                width,
            ),
        ),
        LoweredBinaryPattern::GreedyTail { bit_offset, .. } => holds_tail(
            memory,
            number(memory, q, 8),
            s,
            bit_offset,
        ),
        _ => true,
    }
}

/// Two ranges do not meet.
pub open spec fn ranges_apart(p: int, n: int, q: int, k: int) -> bool {
    p + n <= q || q + k <= p
}

/// Where a segment stores is taken, and meets neither the subject nor a
/// literal.
pub open spec fn has_room(
    o: Outside,
    sc: Scope,
    s: Subject,
    texts: Seq<Seq<u8>>,
    memory: Memory,
    segment: LoweredBinaryPattern,
) -> bool {
    binding(o, sc, segment) matches Some((q, n)) ==> {
        &&& in_memory(q, n as int)
        &&& all_taken(memory, q, n as int)
        &&& ranges_apart(q, n as int, s.at - LENGTH_OFFSET, LENGTH_OFFSET + s.bytes.len() as int)
        &&& forall|k: int|
            0 <= k < texts.len() ==> ranges_apart(
                q,
                n as int,
                (o.values)(Val::Text(k as usize)),
                #[trigger] texts[k].len() as int,
            )
    }
}

/// The literals lie where their names say.
pub open spec fn literals_lie(o: Outside, texts: Seq<Seq<u8>>, memory: Memory) -> bool {
    forall|k: int|
        0 <= k < texts.len() ==> literal_lies((o.values)(Val::Text(k as usize)), #[trigger] texts[k], memory)
}

/// A literal lies at an address.
pub open spec fn literal_lies(p: int, text: Seq<u8>, memory: Memory) -> bool {
    &&& in_memory(p, text.len() as int)
    &&& all_taken(memory, p, text.len() as int)
    &&& forall|i: int| 0 <= i < text.len() ==> #[trigger] byte(memory, p + i) == text[i]
}

/// A comparison of two ranges tells whether they have the same bytes, and
/// changes nothing.
pub open spec fn compares(o: Outside) -> bool {
    forall|args: Seq<int>, memory: Memory|
        args.len() == 3 ==> {
            let (x, after) = #[trigger] (o.calls)(Callee::Runtime(Rt::MemCompare), args, memory);
            &&& after == memory
            &&& 0 <= x <= u32::MAX
            &&& x == 0 <==> forall|i: int|
                0 <= i < args[2] ==> #[trigger] byte(memory, args[0] + i) == byte(memory, args[1] + i)
        }
}

/// Whatever was taken is taken, and has changed at most where a segment
/// stores.
pub open spec fn writes(
    o: Outside,
    sc: Scope,
    segment: LoweredBinaryPattern,
    before: Memory,
    after: Memory,
) -> bool {
    &&& forall|q: int| #[trigger]
        before.taken.contains(q) ==> after.taken.contains(q) && ((binding(o, sc, segment) matches Some(
            (p, n),
        ) && p <= q < p + n) || byte(after, q) == byte(before, q))
    &&& sound(after)
}

/// The setting of a segment.
pub open spec fn segment_setting(
    code: Code,
    o: Outside,
    sc: Scope,
    t: Code,
    m: Machine,
    payload: Val,
    bit_length: Val,
    segment: LoweredBinaryPattern,
    s: Subject,
    texts: Seq<Seq<u8>>,
    layout: LoweredBinaryMatchLayout,
) -> bool {
    &&& segment_code(t, sc, payload, bit_length, segment) matches Some((u, _)) && is_in(code, t, u)
        && u.texts.is_prefix_of(texts)
    &&& t.defines(payload)
    &&& t.defines(bit_length)
    &&& m.at == t.log.len()
    &&& m.returned is None
    &&& read(o, m.results, payload) == s.at
    &&& read(o, m.results, bit_length) == s.bits
    &&& s.lies(m.memory)
    &&& s.is_long(layout)
    &&& sits(layout, segment)
    &&& literals_lie(o, texts, m.memory)
    &&& has_room(o, sc, s, texts, m.memory, segment)
    &&& (forall|id: u32| #[trigger] sc.locals.contains_key(id) ==> sc.locals[id] is Slot)
    &&& heap_calls(o)
    &&& compares(o)
    &&& sound(m.memory)
}

/// A range of the fixed part lies in the subject.
proof fn fixed_part_is_there(s: Subject, layout: LoweredBinaryMatchLayout, memory: Memory, offset: int, bits: int)
    requires
        s.lies(memory),
        s.is_long(layout),
        0 <= offset,
        0 <= bits,
        offset % 8 == 0,
        bits % 8 == 0,
        offset + bits <= layout.fixed_bits,
    ensures
        offset / 8 + bits / 8 <= s.bytes.len(),
{
}

/// What the bytes of an integer segment add up to.
proof fn extracted_number(s: Subject, memory: Memory, offset: u64, n: u64, endian: BinaryEndian)
    requires
        s.lies(memory),
        offset + n <= s.bytes.len(),
        n <= 8,
    ensures
        placed(memory, s.at + offset, endian, n, n as nat) == s.number(offset as int, n as int, endian),
        0 <= s.number(offset as int, n as int, endian) < pow2((8 * n) as nat),
        pow2((8 * n) as nat) <= pow2(64),
{
    subject_number(s, memory, offset as int, n as nat, endian);
    lemma2_to64();
    assert(pow2((8 * (n - n as nat)) as nat) == 1);
    byte_limit_is_power(n as nat);
    big_number_fits(memory, s.at + offset, n as nat);
    number_fits(memory, s.at + offset, n as nat);
    if n < 8 {
        vstd::arithmetic::power2::lemma_pow2_strictly_increases((8 * n) as nat, 64);
    }
}

/// A number of some bytes is one.
proof fn number_fits(memory: Memory, p: int, n: nat)
    ensures
        0 <= number(memory, p, n) < byte_limit(n),
    decreases n,
{
    if n > 0 {
        number_fits(memory, p + 1, (n - 1) as nat);
    }
}

/// The test for an integer literal.
proof fn literal_int_runs(
    code: Code,
    o: Outside,
    t: Code,
    m: Machine,
    payload: Val,
    bit_offset: u64,
    endian: BinaryEndian,
    value: u64,
    width: u64,
    s: Subject,
) -> (l: Machine)
    requires
        is_in(code, t, literal_int_code(t, payload, bit_offset, endian, value, width).0),
        t.defines(payload),
        m.at == t.log.len(),
        m.returned is None,
        read(o, m.results, payload) == s.at,
        s.lies(m.memory),
        width <= 64,
        byte_aligned(bit_offset, width),
        bit_offset / 8 + width / 8 <= s.bytes.len(),
    ensures
        ({
            let (u, ok) = literal_int_code(t, payload, bit_offset, endian, value, width);
            &&& went(code, o, t, u, m, l)
            &&& l.memory == m.memory
            &&& u.defines(ok)
            &&& read(o, l.results, ok) == bit(
                s.number(bit_offset as int / 8, width as int / 8, endian) as u64 & low_mask(width)
                    == value & low_mask(width),
            )
        }),
{
    let (off, n) = (bit_offset / 8, width / 8);
    let (x, extracted) = extract_int_code(t, payload, off, n, endian, n as nat);
    let u = literal_int_code(t, payload, bit_offset, endian, value, width).0;
    let mask = low_mask(width);
    extract_is_straight(t, payload, off, n, endian, n as nat);
    assert(straight(x, u)) by {
        straight_stay(x);
        straight_step(x, x, iand(extracted, num(mask)));
        straight_step(x, x.i(iand(extracted, num(mask))), iand(num(value), num(mask)));
        straight_step(
            x,
            x.i(iand(extracted, num(mask))).i(iand(num(value), num(mask))),
            itest(Pred::Eq, x.v(0), x.v(1)),
        );
    }
    part_is_in(code, t, x, u);
    recorded(code, x, u);
    let a = extract_runs(code, o, t, m, payload, off, n, endian, n as nat);
    extracted_number(s, m.memory, off, n, endian);
    combines(a, code, o, BinOp::And, LType::I64, extracted, num(mask));
    let a1 = a.step(code, o);
    combines(a1, code, o, BinOp::And, LType::I64, num(value), num(mask));
    let a2 = a1.step(code, o);
    tests(a2, code, o, Pred::Eq, LType::I64, x.v(0), x.v(1));
    a2.step(code, o)
}

/// The test for literal bytes.
proof fn literal_bytes_runs(
    code: Code,
    o: Outside,
    t: Code,
    m: Machine,
    payload: Val,
    bit_offset: u64,
    bytes: Seq<u8>,
    s: Subject,
    texts: Seq<Seq<u8>>,
) -> (l: Machine)
    requires
        ({
            let u = literal_bytes_code(t, payload, bit_offset, bytes).0;
            is_in(code, t, u) && u.texts.is_prefix_of(texts)
        }),
        t.defines(payload),
        m.at == t.log.len(),
        m.returned is None,
        read(o, m.results, payload) == s.at,
        s.lies(m.memory),
        bit_offset / 8 + bytes.len() <= s.bytes.len(),
        literals_lie(o, texts, m.memory),
        compares(o),
        texts.len() <= usize::MAX,
    ensures
        ({
            let (u, ok) = literal_bytes_code(t, payload, bit_offset, bytes);
            &&& went(code, o, t, u, m, l)
            &&& l.memory == m.memory
            &&& u.defines(ok)
            &&& read(o, l.results, ok) == bit(
                forall|i: int|
                    0 <= i < bytes.len() ==> #[trigger] s.bytes[bit_offset as int / 8 + i] == bytes[i],
            )
        }),
{
    if bytes.len() == 0 {
        m
    } else {
        let (u, ok) = literal_bytes_code(t, payload, bit_offset, bytes);
        let off = bit_offset / 8;
        let k = t.texts.len() as int;
        recorded(code, t, u);
        assert(texts[k] == bytes) by {
            assert(u.texts[k] == bytes);
            assert(u.texts[k] == texts.subrange(0, u.texts.len() as int)[k]);
        }
        let lit = (o.values)(Val::Text(k as usize));
        assert(literal_lies(lit, texts[k], m.memory));
        moves(m, code, o, payload, num(off));
        let m1 = m.step(code, o);
        address_in_range(s.at + off);
        assert(m1.results[t.log.len() as usize] == s.at + off);
        let args = a3(t.v(0), t.tv(0), num(bytes.len() as u64));
        let words = seq![s.at + off, lit, bytes.len() as int];
        assert(arguments(o, m1.results, args) =~= words) by {
            reveal_with_fuel(arguments, 4);
        }
        calls(m1, code, o, Callee::Runtime(Rt::MemCompare), args);
        let m2 = m1.step(code, o);
        assert(words.len() == 3 && words[0] == s.at + off && words[1] == lit && words[2]
            == bytes.len());
        let x = (o.calls)(Callee::Runtime(Rt::MemCompare), words, m.memory).0;
        assert((x == 0) == (forall|i: int|
            0 <= i < bytes.len() ==> #[trigger] s.bytes[off + i] == bytes[i])) by {
            if x == 0 {
                assert forall|i: int| 0 <= i < bytes.len() implies #[trigger] s.bytes[off + i] == bytes[i] by {
                    assert(byte(m.memory, words[0] + i) == byte(m.memory, words[1] + i));
                    assert(byte(m.memory, s.at + (off + i)) == s.bytes[off + i]);
                    assert(byte(m.memory, lit + i) == bytes[i]);
                }
            }
            if forall|i: int| 0 <= i < bytes.len() ==> #[trigger] s.bytes[off + i] == bytes[i] {
                assert forall|i: int| 0 <= i < words[2] implies #[trigger] byte(m.memory, words[0] + i) == byte(
                    m.memory,
                    words[1] + i,
                ) by {
                    assert(s.bytes[off + i] == bytes[i]);
                    assert(byte(m.memory, s.at + (off + i)) == s.bytes[off + i]);
                    assert(byte(m.memory, lit + i) == bytes[i]);
                }
            }
        }
        tests(m2, code, o, Pred::Eq, LType::I32, t.v(1), num(0));
        m2.step(code, o)
    }
}

/// A number cut to a word and then to a type is cut to the type.
proof fn cut_twice(ty: LType, x: int)
    requires
        ty == LType::I8 || ty == LType::I16 || ty == LType::I32 || ty == LType::I64,
    ensures
        wrapped(ty, wrapped(LType::I64, x) as int) == wrapped(ty, x),
        0 <= wrapped(ty, x) < modulus(ty),
{
    lemma2_to64();
    let b = modulus(ty);
    if ty == LType::I64 {
        vstd::arithmetic::div_mod::lemma_mod_twice(x, b);
    } else {
        let a = 0x1_0000_0000_0000_0000int / b;
        assert(b * a == 0x1_0000_0000_0000_0000);
        vstd::arithmetic::div_mod::lemma_mod_mod(x, b, a);
    }
    vstd::arithmetic::div_mod::lemma_mod_bound(x, b);
}

/// A binding is extracted, extended, narrowed and stored.
#[verifier::spinoff_prover]
#[verifier::rlimit(60)]
proof fn bind_runs(
    code: Code,
    o: Outside,
    t: Code,
    m: Machine,
    payload: Val,
    bit_offset: u64,
    endian: BinaryEndian,
    sign: BinarySign,
    target: LType,
    width: u64,
    slot: Val,
    s: Subject,
) -> (l: Machine)
    requires
        is_in(code, t, bind_int_code(t, payload, bit_offset, endian, sign, target, width, slot)),
        t.defines(payload),
        m.at == t.log.len(),
        m.returned is None,
        read(o, m.results, payload) == s.at,
        s.lies(m.memory),
        width <= 64,
        byte_aligned(bit_offset, width),
        bit_offset / 8 + width / 8 <= s.bytes.len(),
        target == LType::I8 || target == LType::I16 || target == LType::I32 || target == LType::I64,
        slot is Slot,
        in_memory((o.values)(slot), byte_count(o, target) as int),
    ensures
        ({
            let u = bind_int_code(t, payload, bit_offset, endian, sign, target, width, slot);
            let x = s.number(bit_offset as int / 8, width as int / 8, endian) as u64;
            let y = wrapped(target, segment_value(x, sign, width));
            let n = byte_count(o, target);
            &&& went(code, o, t, u, m, l)
            &&& l.memory == stored(m.memory, (o.values)(slot), y as int, n)
            &&& number(l.memory, (o.values)(slot), n) == y
        }),
{
    let (off, n) = (bit_offset / 8, width / 8);
    let (e, extracted) = extract_int_code(t, payload, off, n, endian, n as nat);
    let (f, extended) = extend_code(e, extracted, sign, width);
    let (w, narrowed) = narrow_code(f, extended, target);
    let u = bind_int_code(t, payload, bit_offset, endian, sign, target, width, slot);
    let x = s.number(off as int, n as int, endian) as u64;
    let z = segment_value(x, sign, width);
    extract_is_straight(t, payload, off, n, endian, n as nat);
    straight_stay(e);
    let h = (64 - width) as u64;
    let shl = Inst::Bin(BinOp::Shl, LType::I64, extracted, num(h));
    let ashr = Inst::Bin(BinOp::AShr, LType::I64, e.v(0), num(h));
    straight_step(e, e, shl);
    straight_step(e, e.i(shl), ashr);
    assert(straight(e, f));
    straight_step(e, f, Inst::Cast(CastOp::Trunc, LType::I64, extended, target));
    assert(straight(e, w));
    straight_step(e, w, Inst::Store(target, narrowed, slot));
    part_is_in(code, t, e, u);
    recorded(code, e, u);
    let a = extract_runs(code, o, t, m, payload, off, n, endian, n as nat);
    extracted_number(s, m.memory, off, n, endian);
    lemma2_to64();
    assert(read(o, a.results, extracted) == x);
    assert(x < pow2(width as nat));
    let b = if sign == BinarySign::Signed && 0 < width < 64 {
        extended_bits(x, width);
        combines(a, code, o, BinOp::Shl, LType::I64, extracted, num(h));
        let a1 = a.step(code, o);
        assert(a1.results[e.log.len() as usize] == x << h);
        combines(a1, code, o, BinOp::AShr, LType::I64, e.v(0), num(h));
        a1.step(code, o)
    } else {
        a
    };
    assert(read(o, b.results, extended) == wrapped(LType::I64, z)) by {
        if !(sign == BinarySign::Signed && 0 < width < 64) {
            if z != x {
                assert(width == 64);
                crate::semantics::wraps_once(z);
            }
            vstd::arithmetic::div_mod::lemma_small_mod(x as nat, 0x1_0000_0000_0000_0000);
        }
    }
    cut_twice(target, z);
    let d = if target == LType::I64 {
        b
    } else {
        converts(b, code, o, CastOp::Trunc, LType::I64, extended, target);
        b.step(code, o)
    };
    let y = wrapped(target, z);
    assert(read(o, d.results, narrowed) == y);
    stores(d, code, o, target, narrowed, slot);
    byte_limit_is_power(byte_count(o, target));
    store_is_read_back(m.memory, (o.values)(slot), y as int, byte_count(o, target));
    d.step(code, o)
}

/// A tail is copied into a block of its own; or the allocation has failed.
#[verifier::spinoff_prover]
#[verifier::rlimit(80)]
proof fn tail_runs(
    code: Code,
    o: Outside,
    t: Code,
    m: Machine,
    payload: Val,
    bit_length: Val,
    bit_offset: u64,
    slot: Val,
    s: Subject,
    goal: spec_fn(Machine) -> bool,
) -> (r: Option<Machine>)
    requires
        is_in(code, t, greedy_tail_code(t, payload, bit_length, bit_offset, slot)),
        t.defines(payload),
        t.defines(bit_length),
        m.at == t.log.len(),
        m.returned is None,
        read(o, m.results, payload) == s.at,
        read(o, m.results, bit_length) == s.bits,
        s.lies(m.memory),
        bit_offset % 8 == 0,
        bit_offset <= s.bits,
        slot is Slot,
        in_memory((o.values)(slot), 8),
        all_taken(m.memory, (o.values)(slot), 8),
        heap_calls(o),
        sound(m.memory),
        forall|l: Machine| starved(code, l) ==> #[trigger] goal(l),
    ensures
        match r {
            Some(l) => {
                let u = greedy_tail_code(t, payload, bit_length, bit_offset, slot);
                let q = (o.values)(slot);
                &&& went(code, o, t, u, m, l)
                &&& holds_tail(l.memory, number(l.memory, q, 8), s, bit_offset)
                &&& sound(l.memory)
                &&& forall|x: int| #[trigger]
                    m.memory.taken.contains(x) ==> l.memory.taken.contains(x) && (q <= x < q + 8 || byte(
                        l.memory,
                        x,
                    ) == byte(m.memory, x))
            },
            None => m.comes_to(code, o, goal),
        },
{
    let u = greedy_tail_code(t, payload, bit_length, bit_offset, slot);
    let at = |k: int| Val::At((t.log.len() + k) as usize);
    let q = (o.values)(slot);
    let from = bit_offset / 8;
    let rem = (s.bits - bit_offset) as u64;
    let n = (rem + 7) / 8;
    recorded(code, t, u);
    assert(n == s.bytes.len() - from);
    combines(m, code, o, BinOp::Sub, LType::I64, bit_length, num(bit_offset));
    let m1 = m.step(code, o);
    address_in_range(rem as int);
    assert(m1.results[t.log.len() as usize] == rem);
    combines(m1, code, o, BinOp::Add, LType::I64, at(0), num(7));
    let m2 = m1.step(code, o);
    address_in_range(rem + 7);
    assert(m2.results[(t.log.len() + 1) as usize] == rem + 7);
    combines(m2, code, o, BinOp::LShr, LType::I64, at(1), num(3));
    let m3 = m2.step(code, o);
    let wide = (rem + 7) as u64;
    assert(wide >> 3 == wide / 8) by (bit_vector);
    assert(m3.results[(t.log.len() + 2) as usize] == n);
    combines(m3, code, o, BinOp::Add, LType::I64, num(TAIL_HEADER_BYTES), at(2));
    let m4 = m3.step(code, o);
    address_in_range(n + 8);
    assert(m4.results[(t.log.len() + 3) as usize] == n + 8);
    assert(arguments(o, m4.results, a1(at(3))) =~= seq![n + 8]) by {
        reveal_with_fuel(arguments, 2);
    }
    calls(m4, code, o, Callee::Runtime(Rt::Malloc), a1(at(3)));
    let m5 = m4.step(code, o);
    malloc_call(o, m.memory, n + 8);
    let base = m5.results[(t.log.len() + 4) as usize];
    if base == 0 {
        assert(starved(code, m5));
        arrives(m5, code, o, goal);
        None
    } else {
        assert(m5.results[t.log.len() as usize] == rem);
        stores(m5, code, o, LType::I64, at(0), at(4));
        let m6 = m5.step(code, o);
        stored_elsewhere(m5.memory, base, rem as int, 8);
        byte_limit_is_power(8);
        lemma2_to64();
        store_is_read_back(m5.memory, base, rem as int, 8);
        moves(m6, code, o, at(4), num(TAIL_HEADER_BYTES));
        let m7 = m6.step(code, o);
        address_in_range(base + 8);
        assert(m7.results[(t.log.len() + 6) as usize] == base + 8);
        assert(read(o, m7.results, payload) == s.at);
        moves(m7, code, o, payload, num(from));
        let m8 = m7.step(code, o);
        address_in_range(s.at + from);
        assert(m8.results[(t.log.len() + 7) as usize] == s.at + from);
        assert(m8.results[(t.log.len() + 2) as usize] == n);
        let args = a3(at(6), at(7), at(2));
        assert(arguments(o, m8.results, args) =~= seq![base + 8, s.at + from, n as int]) by {
            reveal_with_fuel(arguments, 4);
        }
        calls(m8, code, o, Callee::Runtime(Rt::Memcpy), args);
        let m9 = m8.step(code, o);
        apart(m.memory, base, n + 8, s.at - LENGTH_OFFSET, LENGTH_OFFSET + s.bytes.len() as int);
        memcpy_call(o, m6.memory, base + 8, s.at + from, n as int);
        assert(m9.results[(t.log.len() + 6) as usize] == base + 8);
        stores(m9, code, o, LType::Ptr, at(6), slot);
        let l = m9.step(code, o);
        stored_elsewhere(m9.memory, q, base + 8, 8);
        store_is_read_back(m9.memory, q, base + 8, 8);
        apart(m.memory, base, n + 8, q, 8);
        assert(number(l.memory, base, 8) == rem) by {
            assert forall|i: int| 0 <= i < 8 implies #[trigger] byte(l.memory, base + i) == byte(
                m6.memory,
                base + i,
            ) by {
                assert(byte(m9.memory, base + i) == byte(m6.memory, base + i));
            }
            number_of_bytes(l.memory, base, m6.memory, base, 8);
        }
        assert forall|i: int| 0 <= i < s.bytes.len() - from implies #[trigger] byte(l.memory, base + 8 + i)
            == s.bytes[from + i] by {
            assert(byte(m9.memory, base + 8 + i) == byte(m6.memory, s.at + from + i));
            assert(m.memory.taken.contains(s.at + (from + i)));
            assert(byte(m.memory, s.at + (from + i)) == s.bytes[from + i]);
        }
        assert forall|x: int| #[trigger] m.memory.taken.contains(x) implies l.memory.taken.contains(x) && (q
            <= x < q + 8 || byte(l.memory, x) == byte(m.memory, x)) by {
            assert(m5.memory.taken.contains(x));
        }
        Some(l)
    }
}

/// A segment goes straight on.
proof fn segment_is_straight(
    t: Code,
    sc: Scope,
    payload: Val,
    bit_length: Val,
    segment: LoweredBinaryPattern,
)
    requires
        segment_code(t, sc, payload, bit_length, segment) is Some,
    ensures
        straight(t, (segment_code(t, sc, payload, bit_length, segment)->0).0),
{
    let u = (segment_code(t, sc, payload, bit_length, segment)->0).0;
    straight_stay(t);
    match segment {
        LoweredBinaryPattern::LiteralInt { bit_offset, endian, value, width } => {
            let n = width / 8;
            let (x, extracted) = extract_int_code(t, payload, bit_offset / 8, n, endian, n as nat);
            let mask = low_mask(width);
            extract_is_straight(t, payload, bit_offset / 8, n, endian, n as nat);
            straight_step(t, x, iand(extracted, num(mask)));
            let y = x.i(iand(extracted, num(mask)));
            straight_step(t, y, iand(num(value), num(mask)));
            straight_step(t, y.i(iand(num(value), num(mask))), itest(Pred::Eq, x.v(0), x.v(1)));
        },
        LoweredBinaryPattern::LiteralBytes { bit_offset, bytes } => {
            assert(t.log =~= u.log.subrange(0, t.log.len() as int));
            assert(t.texts =~= u.texts.subrange(0, t.texts.len() as int));
        },
        LoweredBinaryPattern::BindInt { bit_offset, endian, local, sign, ty, width } => {
            let n = width / 8;
            let target = binding_type(ty)->0;
            let slot = sc.local(local)->0;
            let (e, extracted) = extract_int_code(t, payload, bit_offset / 8, n, endian, n as nat);
            let (f, extended) = extend_code(e, extracted, sign, width);
            let (w, narrowed) = narrow_code(f, extended, target);
            let h = (64 - width) as u64;
            let shl = Inst::Bin(BinOp::Shl, LType::I64, extracted, num(h));
            let ashr = Inst::Bin(BinOp::AShr, LType::I64, e.v(0), num(h));
            extract_is_straight(t, payload, bit_offset / 8, n, endian, n as nat);
            straight_step(t, e, shl);
            straight_step(t, e.i(shl), ashr);
            assert(straight(t, f));
            straight_step(t, f, Inst::Cast(CastOp::Trunc, LType::I64, extended, target));
            assert(straight(t, w));
            straight_step(t, w, Inst::Store(target, narrowed, slot));
        },
        LoweredBinaryPattern::Discard => {},
        LoweredBinaryPattern::GreedyTail { .. } => {
            assert(t.log =~= u.log.subrange(0, t.log.len() as int));
            assert(t.texts =~= u.texts.subrange(0, t.texts.len() as int));
        },
    }
}

/// A segment runs: it tells whether the subject has what it asks for, and
/// stores what it binds. Or an allocation has failed.
#[verifier::spinoff_prover]
#[verifier::rlimit(60)]
proof fn segment_runs(
    code: Code,
    o: Outside,
    sc: Scope,
    t: Code,
    m: Machine,
    payload: Val,
    bit_length: Val,
    segment: LoweredBinaryPattern,
    s: Subject,
    texts: Seq<Seq<u8>>,
    layout: LoweredBinaryMatchLayout,
    goal: spec_fn(Machine) -> bool,
) -> (r: Option<Machine>)
    requires
        segment_setting(
            code,
            o,
            sc,
            t,
            m,
            payload,
            bit_length,
            segment,
            s,
            texts,
            layout,
        ),
        texts.len() <= usize::MAX,
        forall|l: Machine| starved(code, l) ==> #[trigger] goal(l),
    ensures
        match r {
            Some(l) => {
                let (u, ok) = segment_code(t, sc, payload, bit_length, segment)->0;
                &&& went(code, o, t, u, m, l)
                &&& u.defines(ok)
                &&& read(o, l.results, ok) == bit(s.has(segment))
                &&& bound(o, sc, s, l.memory, segment)
                &&& writes(o, sc, segment, m.memory, l.memory)
            },
            None => m.comes_to(code, o, goal),
        },
{
    let (u, ok) = segment_code(t, sc, payload, bit_length, segment)->0;
    match segment {
        LoweredBinaryPattern::LiteralInt { bit_offset, endian, value, width } => {
            fixed_part_is_there(s, layout, m.memory, bit_offset as int, width as int);
            Some(literal_int_runs(code, o, t, m, payload, bit_offset, endian, value, width, s))
        },
        LoweredBinaryPattern::LiteralBytes { bit_offset, bytes } => {
            fixed_part_is_there(s, layout, m.memory, bit_offset as int, 8 * bytes@.len() as int);
            Some(literal_bytes_runs(code, o, t, m, payload, bit_offset, bytes@, s, texts))
        },
        LoweredBinaryPattern::BindInt { bit_offset, endian, local, sign, ty, width } => {
            let target = binding_type(ty)->0;
            let slot = sc.local(local)->0;
            assert(sc.locals.contains_key(local.0));
            fixed_part_is_there(s, layout, m.memory, bit_offset as int, width as int);
            let l = bind_runs(
                code,
                o,
                t,
                m,
                payload,
                bit_offset,
                endian,
                sign,
                target,
                width,
                slot,
                s,
            );
            let x = s.number(bit_offset as int / 8, width as int / 8, endian) as u64;
            let y = wrapped(target, segment_value(x, sign, width)) as int;
            stored_elsewhere(m.memory, (o.values)(slot), y, byte_count(o, target));
            assert forall|q: int| #[trigger] m.memory.taken.contains(q) implies l.memory.taken.contains(q) && (
            (o.values)(slot) <= q < (o.values)(slot) + byte_count(o, target) || byte(l.memory, q) == byte(
                m.memory,
                q,
            )) by {}
            Some(l)
        },
        LoweredBinaryPattern::Discard => Some(m),
        LoweredBinaryPattern::GreedyTail { bit_offset, local } => match local {
            None => Some(m),
            Some(id) => {
                let slot = sc.local(id)->0;
                assert(sc.locals.contains_key(id.0));
                assert(bit_offset <= s.bits);
                tail_runs(code, o, t, m, payload, bit_length, bit_offset, slot, s, goal)
            },
        },
    }
}

/// What all segments need: room for each binding, apart from the others,
/// and a tail at the end at most.
pub open spec fn all_fit(
    o: Outside,
    sc: Scope,
    s: Subject,
    texts: Seq<Seq<u8>>,
    memory: Memory,
    layout: LoweredBinaryMatchLayout,
    segments: Seq<LoweredBinaryPattern>,
) -> bool {
    &&& forall|i: int| 0 <= i < segments.len() ==> sits(layout, #[trigger] segments[i])
    &&& forall|i: int|
        0 <= i < segments.len() ==> has_room(o, sc, s, texts, memory, #[trigger] segments[i])
    &&& forall|i: int, j: int|
        0 <= i < j < segments.len() ==> bindings_apart(
            o,
            sc,
            #[trigger] segments[i],
            #[trigger] segments[j],
        )
    &&& forall|i: int|
        0 <= i < segments.len() - 1 ==> !((#[trigger] segments[i]) is GreedyTail)
    &&& (forall|id: u32| #[trigger] sc.locals.contains_key(id) ==> sc.locals[id] is Slot)
}

/// What two segments bind lies apart.
pub open spec fn bindings_apart(o: Outside, sc: Scope, a: LoweredBinaryPattern, b: LoweredBinaryPattern) -> bool {
    match (binding(o, sc, a), binding(o, sc, b)) {
        (Some((p, n)), Some((q, k))) => ranges_apart(p, n as int, q, k as int),
        _ => true,
    }
}

/// A segment leaves the subject, the literals, the room for others and what
/// others have bound.
proof fn segment_leaves(
    o: Outside,
    sc: Scope,
    s: Subject,
    texts: Seq<Seq<u8>>,
    before: Memory,
    after: Memory,
    layout: LoweredBinaryMatchLayout,
    segments: Seq<LoweredBinaryPattern>,
    k: int,
)
    requires
        all_fit(o, sc, s, texts, before, layout, segments),
        0 <= k < segments.len(),
        writes(o, sc, segments[k], before, after),
        s.lies(before),
        literals_lie(o, texts, before),
        forall|i: int| 0 <= i < k ==> bound(o, sc, s, before, #[trigger] segments[i]),
    ensures
        all_fit(o, sc, s, texts, after, layout, segments),
        s.lies(after),
        literals_lie(o, texts, after),
        forall|i: int| 0 <= i < k ==> bound(o, sc, s, after, #[trigger] segments[i]),
{
    let n = s.bytes.len() as int;
    let p = s.at - LENGTH_OFFSET;
    assert(has_room(o, sc, s, texts, before, segments[k]));
    assert forall|q: int| p <= q < p + LENGTH_OFFSET + n implies #[trigger] after.taken.contains(q) && byte(
        after,
        q,
    ) == byte(before, q) by {
        assert(before.taken.contains(q));
    }
    assert forall|i: int| 0 <= i < 8 implies #[trigger] byte(after, p + i) == byte(before, p + i) by {
        assert(after.taken.contains(p + i));
    }
    number_of_bytes(after, p, before, p, 8);
    assert forall|i: int| 0 <= i < n implies #[trigger] byte(after, s.at + i) == s.bytes[i] by {
        assert(after.taken.contains(s.at + i));
        assert(byte(before, s.at + i) == s.bytes[i]);
    }
    assert forall|j: int| 0 <= j < texts.len() implies literal_lies(
        (o.values)(Val::Text(j as usize)),
        #[trigger] texts[j],
        after,
    ) by {
        let at = (o.values)(Val::Text(j as usize));
        assert(literal_lies(at, texts[j], before));
        assert forall|q: int| at <= q < at + texts[j].len() implies #[trigger] after.taken.contains(q) && byte(
            after,
            q,
        ) == byte(before, q) by {
            assert(before.taken.contains(q));
        }
        assert forall|i: int| 0 <= i < texts[j].len() implies #[trigger] byte(after, at + i) == texts[j][i] by {
            assert(after.taken.contains(at + i));
            assert(byte(before, at + i) == texts[j][i]);
        }
    }
    assert forall|i: int| 0 <= i < segments.len() implies has_room(
        o,
        sc,
        s,
        texts,
        after,
        #[trigger] segments[i],
    ) by {
        assert(has_room(o, sc, s, texts, before, segments[i]));
        if let Some((q, w)) = binding(o, sc, segments[i]) {
            assert forall|x: int| q <= x < q + w implies #[trigger] after.taken.contains(x) by {
                assert(before.taken.contains(x));
            }
        }
    }
    assert forall|i: int| 0 <= i < k implies bound(o, sc, s, after, #[trigger] segments[i]) by {
        assert(bound(o, sc, s, before, segments[i]));
        assert(has_room(o, sc, s, texts, before, segments[i]));
        assert(bindings_apart(o, sc, segments[i], segments[k]));
        if let Some((q, w)) = binding(o, sc, segments[i]) {
            assert forall|x: int| 0 <= x < w implies #[trigger] byte(after, q + x) == byte(before, q + x) by {
                assert(before.taken.contains(q + x));
            }
            number_of_bytes(after, q, before, q, w);
        }
    }
}

/// Segments go straight on.
proof fn segments_are_straight(
    h: Code,
    sc: Scope,
    payload: Val,
    bit_length: Val,
    seed: Val,
    segments: Seq<LoweredBinaryPattern>,
    k: nat,
)
    requires
        segments_code(h, sc, payload, bit_length, seed, segments, k) is Some,
    ensures
        straight(h, (segments_code(h, sc, payload, bit_length, seed, segments, k)->0).0),
    decreases k,
{
    if k == 0 {
        straight_stay(h);
    } else {
        let (t, acc) = segments_code(
            h,
            sc,
            payload,
            bit_length,
            seed,
            segments,
            (k - 1) as nat,
        )->0;
        segments_are_straight(h, sc, payload, bit_length, seed, segments, (k - 1) as nat);
        segment_is_straight(t, sc, payload, bit_length, segments[k - 1]);
        let (u, ok) = segment_code(t, sc, payload, bit_length, segments[k - 1])->0;
        straight_on(h, t, u);
        straight_step(h, u, Inst::Bin(BinOp::And, LType::I1, acc, ok));
    }
}

/// The subject has what the first `k` segments ask for.
pub open spec fn has_first(s: Subject, segments: Seq<LoweredBinaryPattern>, k: int) -> bool {
    forall|i: int| 0 <= i < k ==> s.has(#[trigger] segments[i])
}

/// The first `k` segments run.
#[verifier::spinoff_prover]
#[verifier::rlimit(60)]
proof fn segments_run(
    code: Code,
    o: Outside,
    sc: Scope,
    h: Code,
    m: Machine,
    payload: Val,
    bit_length: Val,
    seed: Val,
    segments: Seq<LoweredBinaryPattern>,
    k: nat,
    s: Subject,
    texts: Seq<Seq<u8>>,
    layout: LoweredBinaryMatchLayout,
    goal: spec_fn(Machine) -> bool,
) -> (r: Option<Machine>)
    requires
        k <= segments.len(),
        segments_code(h, sc, payload, bit_length, seed, segments, k) matches Some((t, _)) && is_in(
            code,
            h,
            t,
        ) && t.texts.is_prefix_of(texts),
        texts.len() <= usize::MAX,
        h.defines(payload),
        h.defines(bit_length),
        h.defines(seed),
        m.at == h.log.len(),
        m.returned is None,
        read(o, m.results, payload) == s.at,
        read(o, m.results, bit_length) == s.bits,
        read(o, m.results, seed) == 1,
        s.lies(m.memory),
        s.is_long(layout),
        literals_lie(o, texts, m.memory),
        all_fit(o, sc, s, texts, m.memory, layout, segments),
        heap_calls(o),
        compares(o),
        sound(m.memory),
        forall|l: Machine| starved(code, l) ==> #[trigger] goal(l),
    ensures
        match r {
            Some(l) => {
                let (t, acc) = segments_code(h, sc, payload, bit_length, seed, segments, k)->0;
                &&& went(code, o, h, t, m, l)
                &&& t.defines(acc)
                &&& read(o, l.results, acc) == bit(has_first(s, segments, k as int))
                &&& s.lies(l.memory)
                &&& literals_lie(o, texts, l.memory)
                &&& all_fit(o, sc, s, texts, l.memory, layout, segments)
                &&& forall|i: int| 0 <= i < k ==> bound(o, sc, s, l.memory, #[trigger] segments[i])
                &&& sound(l.memory)
            },
            None => m.comes_to(code, o, goal),
        },
    decreases k,
{
    if k == 0 {
        Some(m)
    } else {
        let j = (k - 1) as nat;
        let (whole, all) = segments_code(h, sc, payload, bit_length, seed, segments, k)->0;
        let (t, acc) = segments_code(h, sc, payload, bit_length, seed, segments, j)->0;
        let segment = segments[k - 1];
        let (u, ok) = segment_code(t, sc, payload, bit_length, segment)->0;
        let and = Inst::Bin(BinOp::And, LType::I1, acc, ok);
        segments_are_straight(h, sc, payload, bit_length, seed, segments, j);
        segment_is_straight(t, sc, payload, bit_length, segment);
        straight_stay(u);
        straight_step(u, u, and);
        straight_on(t, u, whole);
        straight_on(h, t, whole);
        part_is_in(code, h, t, whole);
        part_is_in(code, t, u, whole);
        recorded(code, u, whole);
        texts_further(t.texts, whole.texts, texts);
        texts_further(u.texts, whole.texts, texts);
        match segments_run(
            code,
            o,
            sc,
            h,
            m,
            payload,
            bit_length,
            seed,
            segments,
            j,
            s,
            texts,
            layout,
            goal,
        ) {
            None => None,
            Some(a) => {
                assert(read(o, a.results, payload) == s.at);
                assert(read(o, a.results, bit_length) == s.bits);
                assert(has_room(o, sc, s, texts, a.memory, segment));
                assert(sits(layout, segment));
                match segment_runs(
                    code,
                    o,
                    sc,
                    t,
                    a,
                    payload,
                    bit_length,
                    segment,
                    s,
                    texts,
                    layout,
                    goal,
                ) {
                    None => None,
                    Some(b) => {
                        segment_leaves(o, sc, s, texts, a.memory, b.memory, layout, segments, k - 1);
                        assert(read(o, b.results, acc) == read(o, a.results, acc));
                        combines(b, code, o, BinOp::And, LType::I1, acc, ok);
                        let l = b.step(code, o);
                        assert(0u64 & 0 == 0 && 0u64 & 1 == 0 && 1u64 & 0 == 0 && 1u64 & 1 == 1)
                            by (bit_vector);
                        assert(has_first(s, segments, k as int) == (has_first(s, segments, k - 1)
                            && s.has(segment)));
                        Some(l)
                    },
                }
            },
        }
    }
}

/// A prefix of a prefix.
proof fn texts_further(a: Seq<Seq<u8>>, b: Seq<Seq<u8>>, d: Seq<Seq<u8>>)
    requires
        a.is_prefix_of(b),
        b.is_prefix_of(d),
    ensures
        a.is_prefix_of(d),
{
    assert forall|i: int| 0 <= i < a.len() implies #[trigger] a[i] == d[i] by {
        assert(a[i] == b.subrange(0, a.len() as int)[i]);
        assert(b[i] == d.subrange(0, b.len() as int)[i]);
    }
    assert(a =~= d.subrange(0, a.len() as int));
}

/// The machine is behind a match: its result tells whether the subject
/// matches, and where the subject is as long as the pattern asks, every
/// binding holds what it should. Or an allocation has failed.
pub open spec fn matched(
    code: Code,
    o: Outside,
    sc: Scope,
    s: Subject,
    layout: LoweredBinaryMatchLayout,
    segments: Seq<LoweredBinaryPattern>,
    end: nat,
    result: Val,
) -> spec_fn(Machine) -> bool {
    unless_starved(
        code,
        |l: Machine|
            {
                &&& l.at == end
                &&& l.returned is None
                &&& read(o, l.results, result) == bit(s.matches(layout, segments))
                &&& s.is_long(layout) ==> forall|i: int|
                    0 <= i < segments.len() ==> bound(o, sc, s, l.memory, #[trigger] segments[i])
            },
    )
}

/// The length test.
#[verifier::spinoff_prover]
#[verifier::rlimit(60)]
proof fn length_runs(
    code: Code,
    o: Outside,
    s: Code,
    m: Machine,
    payload: Val,
    layout: LoweredBinaryMatchLayout,
    subject: Subject,
) -> (l: Machine)
    requires
        guarded_code(s, payload, layout).log.is_prefix_of(code.log),
        s.log.len() + 5 < code.log.len() <= usize::MAX,
        s.defines(payload),
        m.at == s.log.len(),
        m.returned is None,
        read(o, m.results, payload) == subject.at,
        subject.lies(m.memory),
    ensures
        m.leads_to(code, o, l),
        l.at == s.log.len() + 4,
        l.returned is None,
        l.memory == m.memory,
        forall|i: usize| i < s.log.len() ==> #[trigger] l.results[i] == m.results[i],
        l.results[(s.log.len() + 1) as usize] == subject.bits,
        l.results[(s.log.len() + 3) as usize] == bit(subject.is_long(layout)),
        code.log[s.log.len() as int + 4] == (Entry {
            block: s.cur,
            inst: Inst::CondBr(s.v(3), s.b(0), s.b(1)),
        }),
{
    let g = guarded_code(s, payload, layout);
    let n = s.log.len() as int;
    assert forall|i: int| 0 <= i < g.log.len() implies #[trigger] code.log[i] == g.log[i] by {
        assert(g.log[i] == code.log.subrange(0, g.log.len() as int)[i]);
    }
    let pred = if layout.has_greedy_tail {
        Pred::Uge
    } else {
        Pred::Eq
    };
    moves(m, code, o, payload, num(NEG_LENGTH));
    let m1 = m.step(code, o);
    assert(m1.results[n as usize] == subject.at - LENGTH_OFFSET) by {
        crate::semantics::wraps_once(subject.at - LENGTH_OFFSET);
        vstd::arithmetic::div_mod::lemma_small_mod(
            (subject.at - LENGTH_OFFSET) as nat,
            0x1_0000_0000_0000_0000,
        );
    }
    loads(m1, code, o, LType::I64, s.v(0));
    let m2 = m1.step(code, o);
    assert(m2.results[(n + 1) as usize] == subject.bits);
    combines(m2, code, o, BinOp::LShr, LType::I64, s.v(1), num(3));
    let m3 = m2.step(code, o);
    let bits = subject.bits;
    assert(bits >> 3 == bits / 8) by (bit_vector);
    assert(m3.results[(n + 2) as usize] == bits / 8);
    tests(m3, code, o, pred, LType::I64, s.v(2), num(layout.fixed_bits / 8));
    m3.step(code, o)
}

/// A binary match tells whether its subject matches, and binds what its
/// segments name.
#[verifier::spinoff_prover]
#[verifier::rlimit(80)]
pub proof fn match_tells(
    code: Code,
    o: Outside,
    sc: Scope,
    s: Code,
    m: Machine,
    payload: Val,
    layout: LoweredBinaryMatchLayout,
    segments: Seq<LoweredBinaryPattern>,
    subject: Subject,
)
    requires
        tidy(s),
        s.blocks + 2 <= usize::MAX,
        binary_match_code(s, sc, layout, segments, payload) matches Some((f, _)) && {
            &&& begins_as(code, f)
            &&& f.log.len() < code.log.len()
            &&& code.log[f.log.len() as int].block == f.cur
            &&& f.texts.len() <= usize::MAX
            &&& literals_lie(o, f.texts, m.memory)
            &&& all_fit(o, sc, subject, f.texts, m.memory, layout, segments)
        },
        s.defines(payload),
        m.at == s.log.len(),
        m.returned is None,
        read(o, m.results, payload) == subject.at,
        subject.lies(m.memory),
        heap_calls(o),
        compares(o),
        sound(m.memory),
    ensures
        ({
            let (f, result) = binary_match_code(s, sc, layout, segments, payload)->0;
            m.comes_to(
                code,
                o,
                matched(code, o, sc, subject, layout, segments, f.log.len(), result),
            )
        }),
{
    let (f, result) = binary_match_code(s, sc, layout, segments, payload)->0;
    let goal = matched(code, o, sc, subject, layout, segments, f.log.len(), result);
    let h = guarded_code(s, payload, layout);
    let n = s.log.len() as int;
    let (t, acc) = segments_code(h, sc, payload, s.v(1), s.v(3), segments, segments.len())->0;
    segments_are_straight(h, sc, payload, s.v(1), s.v(3), segments, segments.len());
    beginning_stands(code, f);
    assert(h.log.len() == n + 5);
    let end = t.log.len() as int;
    assert(f.log.len() == end + 2);
    assert(f.log[end] == Entry { block: s.b(0), inst: Inst::Br(s.b(1)) });
    assert(f.log[end + 1] == Entry { block: s.b(1), inst: Inst::Phi(LType::I1) });
    assert forall|i: int| 0 <= i < end implies #[trigger] code.log[i] == t.log[i] by {
        assert(f.log[i] == t.log[i]);
    }
    assert(t.log =~= code.log.subrange(0, end));
    assert(h.log =~= code.log.subrange(0, n + 5)) by {
        assert forall|i: int| 0 <= i < n + 5 implies #[trigger] h.log[i] == code.log[i] by {
            assert(h.log[i] == t.log.subrange(0, n + 5)[i]);
        }
    }
    assert(is_in(code, h, t));
    let l = length_runs(code, o, s, m, payload, layout, subject);
    assert forall|i: int| 0 <= i < n implies (#[trigger] code.log[i]).block < s.blocks by {
        assert(h.log[i] == s.log[i]);
    }
    assert forall|i: int| n <= i < n + 5 implies (#[trigger] code.log[i]).block == s.cur by {
        assert(code.log[i] == h.log[i]);
    }
    assert forall|i: int| n + 5 <= i < end + 1 implies (#[trigger] code.log[i]).block == s.b(0) by {
        if i < end {
            assert(code.log[i] == t.log[i]);
        }
    }
    seek_finds(code.log, s.b(0), 0, (n + 5) as nat);
    seek_finds(code.log, s.b(1), 0, (end + 1) as nat);
    let e = s.edges.len() as int;
    assert(t.edges == s.edges);
    assert(code.edges[e] == f.edges[e] && code.edges[e + 1] == f.edges[e + 1]);
    assert forall|j: int| 0 <= j < e implies (#[trigger] code.edges[j]).phi != result by {
        assert(code.edges[j] == f.edges[j]);
        assert(f.edges[j] == s.edges[j]);
    }
    incoming_finds(code.edges, result, s.cur, e);
    incoming_finds(code.edges, result, s.b(0), e + 1);
    branches(l, code, o, s.v(3), s.b(0), s.b(1));
    let next = l.step(code, o);
    if subject.is_long(layout) {
        assert(read(o, next.results, payload) == subject.at);
        match segments_run(
            code,
            o,
            sc,
            h,
            next,
            payload,
            s.v(1),
            s.v(3),
            segments,
            segments.len(),
            subject,
            f.texts,
            layout,
            goal,
        ) {
            None => {},
            Some(a) => {
                jumps(a, code, o, s.b(1));
                let b = a.step(code, o);
                takes(b, code, o, LType::I1, acc);
                let d = b.step(code, o);
                assert(has_first(subject, segments, segments.len() as int) == subject.matches(
                    layout,
                    segments,
                ));
                arrives(d, code, o, goal);
            },
        }
    } else {
        takes(next, code, o, LType::I1, num(0));
        let d = next.step(code, o);
        arrives(d, code, o, goal);
    }
}

} // verus!
