//! Memory as emitted code sees it: bytes by address, numbers made of
//! bytes, and what allocating and copying do.

use vstd::arithmetic::power2::{lemma2_to64, lemma_pow2_adds, pow2};
use vstd::prelude::*;
use crate::emit::heap_layout::LENGTH_OFFSET;
use crate::llvm::{Callee, Code, Inst, LType};
use crate::runtime::Rt;
use crate::semantics::{wrapped, Machine, Outside};

verus! {

/// Bytes by address, the addresses that are taken (those of values that
/// are alive), and how long the blocks are that were handed out.
pub struct Memory {
    pub bytes: Map<u64, u8>,
    pub taken: Set<int>,
    pub blocks: Map<int, int>,
}

/// The byte at an address.
pub open spec fn byte(memory: Memory, address: int) -> u8 {
    memory.bytes[wrapped(LType::I64, address)]
}

/// The little-endian number in `n` bytes at an address.
pub open spec fn number(memory: Memory, address: int, n: nat) -> int
    decreases n,
{
    if n == 0 {
        0
    } else {
        byte(memory, address) + 0x100 * number(memory, address + 1, (n - 1) as nat)
    }
}

/// Memory with another byte at an address.
pub open spec fn with_byte(memory: Memory, address: int, b: u8) -> Memory {
    Memory { bytes: memory.bytes.insert(wrapped(LType::I64, address), b), ..memory }
}

/// Memory with a number in the `n` bytes at an address.
pub open spec fn stored(memory: Memory, address: int, x: int, n: nat) -> Memory
    decreases n,
{
    if n == 0 {
        memory
    } else {
        stored(
            with_byte(memory, address, (x % 0x100) as u8),
            address + 1,
            x / 0x100,
            (n - 1) as nat,
        )
    }
}

/// Addresses that do not wrap are themselves.
pub proof fn address_in_range(address: int)
    requires
        0 <= address <= u64::MAX,
    ensures
        wrapped(LType::I64, address) == address,
{
}

/// A number in memory is made of its bytes.
pub proof fn number_of_bytes(a: Memory, p: int, b: Memory, q: int, n: nat)
    requires
        forall|i: int| 0 <= i < n ==> #[trigger] byte(a, p + i) == byte(b, q + i),
    ensures
        number(a, p, n) == number(b, q, n),
    decreases n,
{
    if n > 0 {
        assert(byte(a, p + 0) == byte(b, q + 0));
        assert forall|i: int| 0 <= i < n - 1 implies #[trigger] byte(a, p + 1 + i) == byte(
            b,
            q + 1 + i,
        ) by {
            assert(byte(a, p + (i + 1)) == byte(b, q + (i + 1)));
        }
        number_of_bytes(a, p + 1, b, q + 1, (n - 1) as nat);
    }
}

/// A store changes only the bytes that it writes.
pub proof fn store_spares_others(memory: Memory, p: int, x: int, n: nat, q: int)
    requires
        0 <= p,
        p + n <= u64::MAX + 1,
        0 <= q <= u64::MAX,
        q < p || q >= p + n,
    ensures
        byte(stored(memory, p, x, n), q) == byte(memory, q),
        stored(memory, p, x, n).taken == memory.taken,
        stored(memory, p, x, n).blocks == memory.blocks,
    decreases n,
{
    if n > 0 {
        let next = with_byte(memory, p, (x % 0x100) as u8);
        store_spares_others(next, p + 1, x / 0x100, (n - 1) as nat, q);
        address_in_range(p);
        address_in_range(q);
        assert(byte(next, q) == byte(memory, q));
    }
}

/// One more than the largest number in `n` bytes.
pub open spec fn byte_limit(n: nat) -> int
    decreases n,
{
    if n == 0 {
        1
    } else {
        0x100 * byte_limit((n - 1) as nat)
    }
}

/// What is stored is read back.
pub proof fn store_is_read_back(memory: Memory, p: int, x: int, n: nat)
    requires
        0 <= p,
        p + n <= u64::MAX + 1,
        0 <= x < byte_limit(n),
    ensures
        number(stored(memory, p, x, n), p, n) == x,
    decreases n,
{
    if n > 0 {
        let next = with_byte(memory, p, (x % 0x100) as u8);
        store_is_read_back(next, p + 1, x / 0x100, (n - 1) as nat);
        store_spares_others(next, p + 1, x / 0x100, (n - 1) as nat, p);
        assert(byte(next, p) == x % 0x100);
    }
}

/// Storing a number that some bytes make up writes these bytes.
pub proof fn stored_number(at: Memory, q: int, from: Memory, p: int, n: nat, i: int)
    requires
        0 <= q,
        q + n <= u64::MAX,
        0 <= p,
        p + n <= u64::MAX,
        0 <= i < n,
    ensures
        byte(stored(at, q, number(from, p, n), n), q + i) == byte(from, p + i),
    decreases n,
{
    let x = number(from, p, n);
    let rest = number(from, p + 1, (n - 1) as nat);
    let next = with_byte(at, q, (x % 0x100) as u8);
    assert(x == byte(from, p) + 0x100 * rest);
    assert(x % 0x100 == byte(from, p) && x / 0x100 == rest) by (nonlinear_arith)
        requires
            x == byte(from, p) + 0x100 * rest,
            0 <= byte(from, p) < 0x100,
    ;
    address_in_range(q);
    if i == 0 {
        store_spares_others(next, q + 1, rest, (n - 1) as nat, q);
    } else {
        stored_number(next, q + 1, from, p + 1, (n - 1) as nat, i - 1);
    }
}

/// A number that a store does not write over stays.
pub proof fn store_spares_numbers(memory: Memory, p: int, x: int, n: nat, q: int, k: nat)
    requires
        0 <= p,
        p + n <= u64::MAX + 1,
        0 <= q,
        q + k <= u64::MAX + 1,
        q + k <= p || p + n <= q,
    ensures
        number(stored(memory, p, x, n), q, k) == number(memory, q, k),
{
    assert forall|i: int| 0 <= i < k implies #[trigger] byte(stored(memory, p, x, n), q + i) == byte(
        memory,
        q + i,
    ) by {
        store_spares_others(memory, p, x, n, q + i);
    }
    number_of_bytes(stored(memory, p, x, n), q, memory, q, k);
}

/// The big-endian number in `n` bytes at an address.
pub open spec fn big_number(memory: Memory, address: int, n: nat) -> int
    decreases n,
{
    if n == 0 {
        0
    } else {
        0x100 * big_number(memory, address, (n - 1) as nat) + byte(memory, address + n - 1)
    }
}

/// `n` bytes are `8 * n` bits.
pub proof fn byte_limit_is_power(n: nat)
    ensures
        byte_limit(n) == pow2(8 * n),
    decreases n,
{
    lemma2_to64();
    if n > 0 {
        byte_limit_is_power((n - 1) as nat);
        lemma_pow2_adds(8, 8 * ((n - 1) as nat));
    }
}

/// A little-endian number and its last byte.
pub proof fn number_and_last_byte(memory: Memory, p: int, n: nat)
    ensures
        0 <= number(memory, p, n) < byte_limit(n),
        n > 0 ==> number(memory, p, n) == number(memory, p, (n - 1) as nat) + byte(
            memory,
            p + n - 1,
        ) * byte_limit((n - 1) as nat),
    decreases n,
{
    if n > 0 {
        number_and_last_byte(memory, p, (n - 1) as nat);
        number_and_last_byte(memory, p + 1, (n - 1) as nat);
        if n > 1 {
            let last = byte(memory, p + n - 1) as int;
            let weight = byte_limit((n - 2) as nat);
            assert(last * (0x100 * weight) == 0x100 * (last * weight)) by (nonlinear_arith);
            assert(byte(memory, (p + 1) + (n - 1) - 1) == last);
        } else {
            assert(number(memory, p + 1, 0) == 0);
        }
    }
}

/// A big-endian number fits its bytes.
pub proof fn big_number_fits(memory: Memory, p: int, n: nat)
    ensures
        0 <= big_number(memory, p, n) < byte_limit(n),
    decreases n,
{
    if n > 0 {
        big_number_fits(memory, p, (n - 1) as nat);
    }
}

/// A range of memory whose end is an address too.
pub open spec fn in_memory(p: int, n: int) -> bool {
    0 <= p && 0 <= n && p + n <= u64::MAX
}

/// Whatever is taken stays taken and keeps its bytes.
pub open spec fn spares(before: Memory, after: Memory) -> bool {
    forall|q: int| #[trigger]
        before.taken.contains(q) ==> after.taken.contains(q) && byte(after, q) == byte(before, q)
}

/// Every byte of a range is taken.
pub open spec fn all_taken(memory: Memory, p: int, n: int) -> bool {
    forall|q: int| p <= q < p + n ==> #[trigger] memory.taken.contains(q)
}

/// No byte of a range is taken.
pub open spec fn none_taken(memory: Memory, p: int, n: int) -> bool {
    forall|q: int| #[trigger] memory.taken.contains(q) ==> !(p <= q < p + n)
}

/// Only addresses are taken.
pub open spec fn sound(memory: Memory) -> bool {
    forall|q: int| #[trigger] memory.taken.contains(q) ==> 0 <= q <= u64::MAX
}

/// A taken range and one of which nothing is taken do not meet.
pub proof fn apart(memory: Memory, fresh: int, room: int, buf: int, n: int)
    requires
        none_taken(memory, fresh, room),
        all_taken(memory, buf, n),
        0 <= n,
        0 <= room,
    ensures
        fresh + room <= buf || buf + n <= fresh || n == 0 || room == 0,
{
    if fresh + room > buf && buf + n > fresh && n > 0 && room > 0 {
        if buf >= fresh {
            assert(memory.taken.contains(buf));
        } else {
            assert(memory.taken.contains(fresh));
        }
    }
}

/// What an allocation does: it hands out a range of which nothing was
/// taken and takes it, or hands out null.
pub open spec fn allocates(before: Memory, n: int, p: int, after: Memory) -> bool {
    &&& spares(before, after)
    &&& sound(after)
    &&& p == 0 ==> after.blocks == before.blocks
    &&& p != 0 ==> {
        &&& in_memory(p, n)
        &&& none_taken(before, p, n)
        &&& all_taken(after, p, n)
        &&& after.blocks == before.blocks.insert(p, n)
    }
}

/// What a copy does: it changes the bytes that it writes and no others.
pub open spec fn copies(before: Memory, dst: int, src: int, n: int, after: Memory) -> bool {
    &&& after.taken == before.taken
    &&& after.blocks == before.blocks
    &&& forall|i: int| 0 <= i < n ==> #[trigger] byte(after, dst + i) == byte(before, src + i)
    &&& forall|q: int|
        0 <= q <= u64::MAX && !(dst <= q < dst + n) ==> #[trigger] byte(after, q) == byte(before, q)
}

/// What filling a range with zeros does.
pub open spec fn clears(before: Memory, p: int, n: int, after: Memory) -> bool {
    &&& after.taken == before.taken
    &&& after.blocks == before.blocks
    &&& forall|i: int| 0 <= i < n ==> #[trigger] byte(after, p + i) == 0
    &&& forall|q: int|
        0 <= q <= u64::MAX && !(p <= q < p + n) ==> #[trigger] byte(after, q) == byte(before, q)
}

/// What giving back a block does: its range is no longer taken, and
/// whatever else is taken stays as it is.
pub open spec fn releases(before: Memory, p: int, after: Memory) -> bool {
    &&& sound(after)
    &&& after.blocks == before.blocks.remove(p)
    &&& forall|q: int| #[trigger]
        before.taken.contains(q) && !(p <= q < p + before.blocks[p]) ==> after.taken.contains(q)
            && byte(after, q) == byte(before, q)
}

/// `malloc` allocates, `memcpy` copies between ranges that do not overlap,
/// `memset` with zero clears, and `free` gives back a block that was
/// handed out.
pub open spec fn heap_calls(o: Outside) -> bool {
    &&& forall|args: Seq<int>, memory: Memory|
        args.len() == 1 && 0 <= args[0] <= u64::MAX && sound(memory) ==> {
            let (p, after) = #[trigger] (o.calls)(Callee::Runtime(Rt::Malloc), args, memory);
            allocates(memory, args[0], p, after)
        }
    &&& forall|args: Seq<int>, memory: Memory|
        args.len() == 3 && in_memory(args[0], args[2]) && in_memory(args[1], args[2]) && (args[0]
            + args[2] <= args[1] || args[1] + args[2] <= args[0] || args[2] == 0) ==> {
            let (_, after) = #[trigger] (o.calls)(Callee::Runtime(Rt::Memcpy), args, memory);
            copies(memory, args[0], args[1], args[2], after)
        }
    &&& forall|args: Seq<int>, memory: Memory|
        args.len() == 3 && args[1] == 0 && in_memory(args[0], args[2]) ==> {
            let (_, after) = #[trigger] (o.calls)(Callee::Runtime(Rt::Memset), args, memory);
            clears(memory, args[0], args[2], after)
        }
    &&& forall|args: Seq<int>, memory: Memory|
        args.len() == 1 && sound(memory) && memory.blocks.contains_key(args[0]) ==> {
            let (_, after) = #[trigger] (o.calls)(Callee::Runtime(Rt::Free), args, memory);
            releases(memory, args[0], after)
        }
}

/// An allocation has just handed out null.
pub open spec fn starved(code: Code, l: Machine) -> bool {
    &&& 0 < l.at <= code.log.len()
    &&& code.log[l.at - 1].inst matches Inst::Call(Callee::Runtime(Rt::Malloc), _)
    &&& l.results[(l.at - 1) as usize] == 0
}

/// A state of some sort, or one in which an allocation has failed.
pub open spec fn unless_starved(code: Code, goal: spec_fn(Machine) -> bool) -> spec_fn(
    Machine,
) -> bool {
    |l: Machine| starved(code, l) || goal(l)
}

/// A heap payload at `p` holds some bytes: its length word counts their
/// bits, and they follow one another from `p` on.
pub open spec fn holds_bytes(memory: Memory, p: u64, bytes: Seq<u8>) -> bool {
    &&& 8 * bytes.len() <= u64::MAX
    &&& number(memory, wrapped(LType::I64, p - LENGTH_OFFSET) as int, 8) == 8 * bytes.len()
    &&& forall|i: int| 0 <= i < bytes.len() ==> #[trigger] byte(memory, p + i) == bytes[i]
}

/// A payload and its length word are taken.
pub open spec fn payload_taken(memory: Memory, p: int, n: int) -> bool {
    &&& in_memory(p - LENGTH_OFFSET, LENGTH_OFFSET + n)
    &&& all_taken(memory, p - LENGTH_OFFSET, LENGTH_OFFSET + n)
}

/// The call of an allocation.
pub proof fn malloc_call(o: Outside, memory: Memory, n: int)
    requires
        heap_calls(o),
        sound(memory),
        0 <= n <= u64::MAX,
    ensures
        ({
            let (p, after) = (o.calls)(Callee::Runtime(Rt::Malloc), seq![n], memory);
            allocates(memory, n, p, after)
        }),
{
    let args = seq![n];
    assert(args.len() == 1 && args[0] == n);
}

/// The call of a copy.
pub proof fn memcpy_call(o: Outside, memory: Memory, dst: int, src: int, n: int)
    requires
        heap_calls(o),
        in_memory(dst, n),
        in_memory(src, n),
        dst + n <= src || src + n <= dst || n == 0,
    ensures
        copies(
            memory,
            dst,
            src,
            n,
            (o.calls)(Callee::Runtime(Rt::Memcpy), seq![dst, src, n], memory).1,
        ),
{
    let args = seq![dst, src, n];
    assert(args.len() == 3 && args[0] == dst && args[1] == src && args[2] == n);
}

/// The call that fills a range with zeros.
pub proof fn memset_call(o: Outside, memory: Memory, p: int, n: int)
    requires
        heap_calls(o),
        in_memory(p, n),
    ensures
        clears(memory, p, n, (o.calls)(Callee::Runtime(Rt::Memset), seq![p, 0, n], memory).1),
{
    let args = seq![p, 0, n];
    assert(args.len() == 3 && args[0] == p && args[1] == 0 && args[2] == n);
}

/// The call that gives back a block.
pub proof fn free_call(o: Outside, memory: Memory, p: int)
    requires
        heap_calls(o),
        sound(memory),
        memory.blocks.contains_key(p),
    ensures
        releases(memory, p, (o.calls)(Callee::Runtime(Rt::Free), seq![p], memory).1),
{
    let args = seq![p];
    assert(args.len() == 1 && args[0] == p);
}

} // verus!
