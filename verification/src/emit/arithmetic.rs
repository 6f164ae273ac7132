//! What operators compute.
//!
//! An integer operand stands for a number of its type, signed or unsigned.
//! Arithmetic gives the exact number where the type holds it and panics
//! elsewhere, comparisons compare the numbers.

use vstd::prelude::*;
use vstd::utf8::encode_utf8;
use crate::emit::ops::{
    all_ones, binary_op_code, checked_form, fault_guard_code, least, unary_op_code, widening, INFINITY_BITS,
};
use crate::emit::variants::{agree, known_by};
use crate::ir::{FaultTexts, IRBinOp, IRType, IRUnaryOp};
use crate::llvm::{a1, a2, call, num, BinOp, Callee, Code, Inst, LType, Pred, Val};
use crate::runtime::Rt;
use crate::semantics::{
    arguments, arrives, bit, block_begins, branches, calls, checks, combines, converts, exact_value, floats,
    modulus, overflows, read, signed_value, stands, tells_overflow, tests, tidy, truncated_quotient,
    wrapped, Machine, Outside,
};

verus! {

/// The integer that a word of a type stands for.
pub open spec fn integer(ty: IRType, x: int) -> int {
    match ty {
        IRType::Int8 => if x < 0x80 { x } else { x - 0x100 },
        IRType::Int16 => if x < 0x8000 { x } else { x - 0x1_0000 },
        IRType::Int32 => if x < 0x8000_0000 { x } else { x - 0x1_0000_0000 },
        IRType::Int64 => if x < 0x8000_0000_0000_0000 { x } else { x - 0x1_0000_0000_0000_0000 },
        _ => x,
    }
}

/// The least integer of a type and the one past the greatest.
pub open spec fn span(ty: IRType) -> (int, int) {
    match ty {
        IRType::Int8 => (-0x80, 0x80),
        IRType::Int16 => (-0x8000, 0x8000),
        IRType::Int32 => (-0x8000_0000, 0x8000_0000),
        IRType::Int64 => (-0x8000_0000_0000_0000, 0x8000_0000_0000_0000),
        IRType::UInt8 => (0, 0x100),
        IRType::UInt16 => (0, 0x1_0000),
        IRType::UInt32 => (0, 0x1_0000_0000),
        _ => (0, 0x1_0000_0000_0000_0000),
    }
}

/// The type is an integer type.
pub open spec fn is_integer(ty: IRType) -> bool {
    match ty {
        IRType::Int8 | IRType::Int16 | IRType::Int32 | IRType::Int64 => true,
        IRType::UInt8 | IRType::UInt16 | IRType::UInt32 | IRType::UInt64 => true,
        _ => false,
    }
}

/// A word is one of an integer type: a bit pattern of its width.
pub open spec fn is_word(ty: IRType, x: int) -> bool {
    0 <= x < span(ty).1 - span(ty).0
}

/// The type holds the number.
pub open spec fn holds_number(ty: IRType, x: int) -> bool {
    span(ty).0 <= x < span(ty).1
}

/// The run panics with a message.
pub open spec fn panics_with(code: Code, message: Seq<char>) -> spec_fn(Machine) -> bool {
    |l: Machine|
        exists|k: usize|
            {
                &&& k < code.texts.len()
                &&& code.texts[k as int] == encode_utf8(message)
                &&& #[trigger] l.faces(code, call(Rt::Panic, a1(Val::Text(k))))
            }
}

/// A run goes on from one state to another behind some code: what was
/// known stays known, and memory is as it was.
pub open spec fn comes_through(m: Machine, code: Code, o: Outside, s: Code, t: Code, l: Machine) -> bool {
    &&& m.leads_to(code, o, l)
    &&& l.at == t.log.len()
    &&& l.returned is None
    &&& l.memory == m.memory
    &&& agree(l.results, m.results, s.log.len() as int)
}

/// A piece of code is about to run: it stands in the body, and what
/// follows it goes on in its last block.
pub open spec fn about_to(m: Machine, code: Code, s: Code, t: Code) -> bool {
    &&& tidy(s)
    &&& t.blocks <= usize::MAX
    &&& stands(code, t)
    &&& t.log.len() < code.log.len()
    &&& code.log[t.log.len() as int].block == t.cur
    &&& m.at == s.log.len()
    &&& m.returned is None
}

/// A guard panics with its message where its condition holds, and lets
/// the run go on where it does not.
pub proof fn guard_panics_or_not(m: Machine, code: Code, o: Outside, s: Code, fault: Val, message: Seq<char>) -> (l:
    Machine)
    requires
        about_to(m, code, s, fault_guard_code(s, fault, message)),
        0 <= read(o, m.results, fault) <= 1,
    ensures
        read(o, m.results, fault) == 1 ==> m.comes_to(code, o, panics_with(code, message)),
        read(o, m.results, fault) == 0 ==> {
            &&& m.leads_to(code, o, l)
            &&& l.at == s.log.len() + 3
            &&& l.returned is None
            &&& l.memory == m.memory
            &&& l.results == m.results
            &&& l.parts == m.parts
        },
        tidy(fault_guard_code(s, fault, message)),
        fault_guard_code(s, fault, message).log.len() == s.log.len() + 3,
        stands(fault_guard_code(s, fault, message), s),
{
    let n = s.log.len() as int;
    let t = fault_guard_code(s, fault, message);
    assert(code.log[n] == t.log[n] && code.log[n + 1] == t.log[n + 1] && code.log[n + 2] == t.log[n + 2]);
    let g = s.word("panic"@).word("ok"@).i(Inst::CondBr(fault, s.b(0), s.b(1))).at(s.b(0));
    assert(stands(code, g)) by {
        assert forall|i: int| 0 <= i < g.log.len() implies #[trigger] code.log[i] == g.log[i] by {
            assert(code.log[i] == t.log[i]);
        }
        assert forall|i: int| 0 <= i < g.texts.len() implies #[trigger] code.texts[i] == g.texts[i] by {
            assert(code.texts[i] == t.texts[i]);
        }
    }
    branches(m, code, o, fault, s.b(0), s.b(1));
    let l = m.step(code, o);
    if read(o, m.results, fault) == 1 {
        assert forall|i: int| 0 <= i < g.log.len() implies (#[trigger] g.log[i]).block != g.cur by {
            if i < n {
                assert(s.log[i].block < s.blocks);
            }
        }
        block_begins(code, g);
        let k = s.texts.len() as usize;
        assert(code.texts[k as int] == t.texts[k as int]);
        assert(l.faces(code, call(Rt::Panic, a1(Val::Text(k)))));
        arrives(l, code, o, panics_with(code, message));
    } else {
        assert forall|i: int| 0 <= i < t.log.len() implies (#[trigger] t.log[i]).block != t.cur by {
            if i < n {
                assert(s.log[i].block < s.blocks);
            }
        }
        block_begins(code, t);
    }
    assert forall|i: int| 0 <= i < t.log.len() implies (#[trigger] t.log[i]).block < t.blocks by {
        if i < n {
            assert(s.log[i].block < s.blocks);
        }
    }
    assert forall|j: int| 0 <= j < t.edges.len() implies match (#[trigger] t.edges[j]).phi {
        Val::At(p) => p < t.log.len(),
        _ => false,
    } by {
        assert(s.edges[j] == t.edges[j]);
    }
    l
}

/// The relation that a comparison is about.
pub open spec fn compares(op: IRBinOp, x: int, y: int) -> bool {
    match op {
        IRBinOp::Eq => x == y,
        IRBinOp::NotEq => x != y,
        IRBinOp::Lt => x < y,
        IRBinOp::LtEq => x <= y,
        IRBinOp::Gt => x > y,
        IRBinOp::GtEq => x >= y,
        _ => false,
    }
}

/// The operator is a comparison.
pub open spec fn is_comparison(op: IRBinOp) -> bool {
    match op {
        IRBinOp::Eq | IRBinOp::NotEq | IRBinOp::Lt | IRBinOp::LtEq | IRBinOp::Gt | IRBinOp::GtEq => true,
        _ => false,
    }
}

proof fn words_are_integers(ty: IRType, x: int)
    requires
        is_integer(ty),
        is_word(ty, x),
    ensures
        crate::types::signed(ty) ==> integer(ty, x) == signed_value(
            crate::types::value_type(ty),
            x as u64,
        ),
        !crate::types::signed(ty) ==> integer(ty, x) == x,
        modulus(crate::types::value_type(ty)) == span(ty).1 - span(ty).0,
{
}

/// A comparison of two integers is 1 where they stand in its relation,
/// and 0 elsewhere.
pub proof fn comparison_compares(
    m: Machine,
    code: Code,
    o: Outside,
    s: Code,
    op: IRBinOp,
    ty: IRType,
    lhs: Val,
    rhs: Val,
    texts: &FaultTexts,
) -> (l: Machine)
    requires
        is_comparison(op),
        is_integer(ty) || ty == IRType::Bool && (op == IRBinOp::Eq || op == IRBinOp::NotEq),
        about_to(m, code, s, binary_op_code(s, op, ty, lhs, rhs, texts).0),
        is_word(ty, read(o, m.results, lhs)),
        is_word(ty, read(o, m.results, rhs)),
    ensures
        ({
            let (t, v) = binary_op_code(s, op, ty, lhs, rhs, texts);
            let (x, y) = (integer(ty, read(o, m.results, lhs)), integer(ty, read(o, m.results, rhs)));
            &&& comes_through(m, code, o, s, t, l)
            &&& read(o, l.results, v) == bit(compares(op, x, y))
        }),
{
    let (t, v) = binary_op_code(s, op, ty, lhs, rhs, texts);
    let n = s.log.len() as int;
    assert(code.log[n] == t.log[n]);
    let lt = crate::types::value_type(ty);
    let pred = crate::emit::ops::int_pred(op, crate::types::signed(ty));
    if is_integer(ty) {
        words_are_integers(ty, read(o, m.results, lhs));
        words_are_integers(ty, read(o, m.results, rhs));
    }
    tests(m, code, o, pred, lt, lhs, rhs);
    m.step(code, o)
}

/// What exact arithmetic gives. A quotient is rounded towards zero, and
/// the remainder goes with it.
pub open spec fn exactly(op: IRBinOp, x: int, y: int) -> int {
    match op {
        IRBinOp::Add => x + y,
        IRBinOp::Sub => x - y,
        IRBinOp::Mul => x * y,
        IRBinOp::Div => truncated_quotient(x, y),
        _ => x - y * truncated_quotient(x, y),
    }
}

/// A sum, difference or product of integers is exact where the type holds
/// it. Elsewhere the run panics.
pub proof fn arithmetic_is_exact(
    m: Machine,
    code: Code,
    o: Outside,
    s: Code,
    op: IRBinOp,
    ty: IRType,
    lhs: Val,
    rhs: Val,
    texts: &FaultTexts,
) -> (l: Machine)
    requires
        op == IRBinOp::Add || op == IRBinOp::Sub || op == IRBinOp::Mul,
        is_integer(ty),
        about_to(m, code, s, binary_op_code(s, op, ty, lhs, rhs, texts).0),
        is_word(ty, read(o, m.results, lhs)),
        is_word(ty, read(o, m.results, rhs)),
    ensures
        ({
            let (t, v) = binary_op_code(s, op, ty, lhs, rhs, texts);
            let (x, y) = (integer(ty, read(o, m.results, lhs)), integer(ty, read(o, m.results, rhs)));
            let z = exactly(op, x, y);
            if holds_number(ty, z) {
                &&& comes_through(m, code, o, s, t, l)
                &&& is_word(ty, read(o, l.results, v))
                &&& integer(ty, read(o, l.results, v)) == z
            } else {
                m.comes_to(code, o, panics_with(code, texts.overflow@))
            }
        }),
{
    let (t, v) = binary_op_code(s, op, ty, lhs, rhs, texts);
    let n = s.log.len() as int;
    let lt = crate::types::value_type(ty);
    let (a, b) = (read(o, m.results, lhs), read(o, m.results, rhs));
    let form = checked_form(op, crate::types::signed(ty));
    let c3 = s.i(Inst::Checked(form, lt, lhs, rhs))
        .i(Inst::Unchecked(lt, s.v(0)))
        .i(Inst::Overflowed(lt, s.v(0)));
    assert(t == fault_guard_code(c3, s.v(2), texts.overflow@));
    assert(code.log[n] == t.log[n] && code.log[n + 1] == t.log[n + 1] && code.log[n + 2] == t.log[n + 2]
        && code.log[n + 3] == t.log[n + 3]);
    words_are_integers(ty, a);
    words_are_integers(ty, b);
    checks(m, code, o, form, lt, lhs, rhs);
    let m1 = m.step(code, o);
    tells_overflow(m1, code, o, lt, s.v(0));
    let m2 = m1.step(code, o);
    tells_overflow(m2, code, o, lt, s.v(0));
    let m3 = m2.step(code, o);
    let z = exactly(op, integer(ty, a), integer(ty, b));
    assert(exact_value(form, lt, a as u64, b as u64) == z);
    assert(overflows(form, lt, z) == !holds_number(ty, z));
    assert(read(o, m3.results, s.v(2)) == bit(overflows(form, lt, z)));
    assert(tidy(c3));
    let l = guard_panics_or_not(m3, code, o, c3, s.v(2), texts.overflow@);
    if holds_number(ty, z) {
        assert(read(o, l.results, v) == wrapped(lt, z));
        wraps_to_itself(ty, z);
    }
    l
}

/// A number that a type holds, as a word, stands for itself.
proof fn wraps_to_itself(ty: IRType, z: int)
    requires
        is_integer(ty),
        holds_number(ty, z),
    ensures
        is_word(ty, wrapped(crate::types::value_type(ty), z) as int),
        integer(ty, wrapped(crate::types::value_type(ty), z) as int) == z,
{
    let w = modulus(crate::types::value_type(ty));
    if z < 0 {
        vstd::arithmetic::div_mod::lemma_mod_add_multiples_vanish(z, w);
        vstd::arithmetic::div_mod::lemma_small_mod((z + w) as nat, w as nat);
    } else {
        vstd::arithmetic::div_mod::lemma_small_mod(z as nat, w as nat);
    }
}

/// A quotient or remainder of integers is exact where the divisor is not
/// zero and the type holds the quotient. A zero divisor and a quotient
/// that does not fit panic, each with its own message.
pub proof fn division_is_exact(
    m: Machine,
    code: Code,
    o: Outside,
    s: Code,
    op: IRBinOp,
    ty: IRType,
    lhs: Val,
    rhs: Val,
    texts: &FaultTexts,
) -> (l: Machine)
    requires
        op == IRBinOp::Div || op == IRBinOp::Mod,
        is_integer(ty),
        about_to(m, code, s, binary_op_code(s, op, ty, lhs, rhs, texts).0),
        known_by(lhs, s.log.len() as int),
        known_by(rhs, s.log.len() as int),
        is_word(ty, read(o, m.results, lhs)),
        is_word(ty, read(o, m.results, rhs)),
    ensures
        ({
            let (t, v) = binary_op_code(s, op, ty, lhs, rhs, texts);
            let (x, y) = (integer(ty, read(o, m.results, lhs)), integer(ty, read(o, m.results, rhs)));
            if y == 0 {
                m.comes_to(code, o, panics_with(code, texts.division_by_zero@))
            } else if !holds_number(ty, truncated_quotient(x, y)) {
                m.comes_to(code, o, panics_with(code, texts.overflow@))
            } else {
                &&& comes_through(m, code, o, s, t, l)
                &&& is_word(ty, read(o, l.results, v))
                &&& integer(ty, read(o, l.results, v)) == exactly(op, x, y)
            }
        }),
{
    let (t, v) = binary_op_code(s, op, ty, lhs, rhs, texts);
    let n = s.log.len() as int;
    let lt = crate::types::value_type(ty);
    let (a, b) = (read(o, m.results, lhs), read(o, m.results, rhs));
    let (x, y) = (integer(ty, a), integer(ty, b));
    words_are_integers(ty, a);
    words_are_integers(ty, b);
    let c1 = s.i(Inst::ITest(Pred::Eq, lt, rhs, num(0)));
    let z = fault_guard_code(c1, s.v(0), texts.division_by_zero@);
    assert(tidy(c1));
    assert(z.log.len() == n + 4 && z.cur == s.b(1));
    tests_zero(m, code, o, s, t, lt, rhs, texts.division_by_zero@);
    let m1 = m.step(code, o);
    let m2 = guard_panics_or_not(m1, code, o, c1, s.v(0), texts.division_by_zero@);
    if y == 0 {
        m
    } else if !crate::types::signed(ty) {
        let form = if op == IRBinOp::Div { BinOp::UDiv } else { BinOp::URem };
        assert(code.log[n + 4] == t.log[n + 4]);
        combines(m2, code, o, form, lt, lhs, rhs);
        unsigned_quotient(ty, a, b);
        m2.step(code, o)
    } else {
        let c4 = z.i(Inst::ITest(Pred::Eq, lt, lhs, num(least(lt))))
            .i(Inst::ITest(Pred::Eq, lt, rhs, num(all_ones(lt))))
            .i(Inst::Bin(BinOp::And, LType::I1, z.v(0), z.v(1)));
        let g = fault_guard_code(c4, z.v(2), texts.overflow@);
        let form = if op == IRBinOp::Div { BinOp::SDiv } else { BinOp::SRem };
        assert(t == g.i(Inst::Bin(form, lt, lhs, rhs)));
        assert(code.log[n + 4] == t.log[n + 4] && code.log[n + 5] == t.log[n + 5]);
        assert(code.log[n + 6] == t.log[n + 6] && code.log[n + 7] == t.log[n + 7]);
        assert(code.log[n + 10] == t.log[n + 10]);
        assert(read(o, m2.results, lhs) == a && read(o, m2.results, rhs) == b);
        tests(m2, code, o, Pred::Eq, lt, lhs, num(least(lt)));
        let m3 = m2.step(code, o);
        assert(read(o, m3.results, rhs) == b);
        tests(m3, code, o, Pred::Eq, lt, rhs, num(all_ones(lt)));
        let m4 = m3.step(code, o);
        assert(0u64 & 0 == 0 && 0u64 & 1 == 0 && 1u64 & 0 == 0 && 1u64 & 1 == 1) by (bit_vector);
        combines(m4, code, o, BinOp::And, LType::I1, z.v(0), z.v(1));
        let m5 = m4.step(code, o);
        let low = a == least(lt) && b == all_ones(lt);
        assert(read(o, m5.results, z.v(2)) == bit(low));
        assert(tidy(c4));
        assert(stands(code, g)) by {
            assert forall|i: int| 0 <= i < g.log.len() implies #[trigger] code.log[i] == g.log[i] by {
                assert(code.log[i] == t.log[i]);
            }
            assert forall|i: int| 0 <= i < g.texts.len() implies #[trigger] code.texts[i] == g.texts[i] by {
                assert(code.texts[i] == t.texts[i]);
            }
        }
        let m6 = guard_panics_or_not(m5, code, o, c4, z.v(2), texts.overflow@);
        signed_quotient(ty, a, b);
        if low {
            m
        } else {
            assert(read(o, m6.results, lhs) == a && read(o, m6.results, rhs) == b);
            combines(m6, code, o, form, lt, lhs, rhs);
            m6.step(code, o)
        }
    }
}

proof fn tests_zero(
    m: Machine,
    code: Code,
    o: Outside,
    s: Code,
    t: Code,
    lt: LType,
    rhs: Val,
    message: Seq<char>,
)
    requires
        about_to(m, code, s, t),
        ({
            let c1 = s.i(Inst::ITest(Pred::Eq, lt, rhs, num(0)));
            let z = fault_guard_code(c1, s.v(0), message);
            &&& stands(t, z)
            &&& z.log.len() < t.log.len()
            &&& t.log[z.log.len() as int].block == z.cur
            &&& z.blocks <= t.blocks
        }),
        0 <= read(o, m.results, rhs) <= u64::MAX,
    ensures
        m.runs_on(code, o),
        m.step(code, o) == m.with(bit(read(o, m.results, rhs) == 0) as int),
        ({
            let c1 = s.i(Inst::ITest(Pred::Eq, lt, rhs, num(0)));
            about_to(m.step(code, o), code, c1, fault_guard_code(c1, s.v(0), message))
        }),
{
    let n = s.log.len() as int;
    let c1 = s.i(Inst::ITest(Pred::Eq, lt, rhs, num(0)));
    let z = fault_guard_code(c1, s.v(0), message);
    assert(code.log[n] == t.log[n] && t.log[n] == z.log[n]);
    assert(code.log[n + 1] == t.log[n + 1] && t.log[n + 1] == z.log[n + 1]);
    tests(m, code, o, Pred::Eq, lt, rhs, num(0));
    assert(stands(code, z)) by {
        assert forall|i: int| 0 <= i < z.log.len() implies #[trigger] code.log[i] == z.log[i] by {
            assert(code.log[i] == t.log[i]);
        }
        assert forall|i: int| 0 <= i < z.texts.len() implies #[trigger] code.texts[i] == z.texts[i] by {
            assert(code.texts[i] == t.texts[i]);
        }
        assert forall|i: int| 0 <= i < z.slots.len() implies #[trigger] code.slots[i] == z.slots[i] by {
            assert(code.slots[i] == t.slots[i]);
        }
        assert forall|i: int| 0 <= i < z.edges.len() implies #[trigger] code.edges[i] == z.edges[i] by {
            assert(code.edges[i] == t.edges[i]);
        }
    }
    assert(code.log[z.log.len() as int] == t.log[z.log.len() as int]);
    assert(tidy(c1));
}

proof fn unsigned_quotient(ty: IRType, a: int, b: int)
    requires
        is_integer(ty),
        !crate::types::signed(ty),
        is_word(ty, a),
        is_word(ty, b),
        b != 0,
    ensures
        holds_number(ty, truncated_quotient(a, b)),
        truncated_quotient(a, b) == a / b,
        a % b == a - b * (a / b),
        is_word(ty, a / b),
        is_word(ty, a % b),
{
    vstd::arithmetic::div_mod::lemma_fundamental_div_mod(a, b);
    vstd::arithmetic::div_mod::lemma_mod_bound(a, b);
    vstd::arithmetic::div_mod::lemma_div_is_ordered_by_denominator(a, 1, b);
    vstd::arithmetic::div_mod::lemma_div_pos_is_pos(a, b);
    vstd::arithmetic::div_mod::lemma_div_basics(a);
}

proof fn signed_quotient(ty: IRType, a: int, b: int)
    requires
        is_integer(ty),
        crate::types::signed(ty),
        is_word(ty, a),
        is_word(ty, b),
        b != 0,
    ensures
        ({
            let lt = crate::types::value_type(ty);
            let (x, y) = (integer(ty, a), integer(ty, b));
            let q = truncated_quotient(x, y);
            &&& holds_number(ty, q) <==> !(a == least(lt) && b == all_ones(lt))
            &&& holds_number(ty, q) <==> 2 * q < modulus(lt)
            &&& holds_number(ty, q) ==> {
                &&& is_word(ty, wrapped(lt, q) as int)
                &&& integer(ty, wrapped(lt, q) as int) == q
                &&& is_word(ty, wrapped(lt, x - y * q) as int)
                &&& integer(ty, wrapped(lt, x - y * q) as int) == x - y * q
            }
        }),
{
    let lt = crate::types::value_type(ty);
    let (x, y) = (integer(ty, a), integer(ty, b));
    let q = truncated_quotient(x, y);
    let limit = modulus(lt);
    crate::emit::ops::quotient_fits(x, y, limit);
    let (p, d) = (if x >= 0 { x } else { -x }, if y >= 0 { y } else { -y });
    vstd::arithmetic::div_mod::lemma_fundamental_div_mod(p, d);
    vstd::arithmetic::div_mod::lemma_mod_bound(p, d);
    vstd::arithmetic::div_mod::lemma_div_is_ordered_by_denominator(p, 1, d);
    vstd::arithmetic::div_mod::lemma_div_pos_is_pos(p, d);
    vstd::arithmetic::div_mod::lemma_div_basics(p);
    let r = x - y * q;
    assert(r == p % d || r == -(p % d)) by (nonlinear_arith)
        requires
            p == d * (p / d) + p % d,
            r == x - y * q,
            x >= 0 && y > 0 ==> q == p / d && x == p && y == d,
            x >= 0 && y < 0 ==> q == -(p / d) && x == p && y == -d,
            x < 0 && y > 0 ==> q == -(p / d) && x == -p && y == d,
            x < 0 && y < 0 ==> q == p / d && x == -p && y == -d,
            y != 0,
    ;
    if holds_number(ty, q) {
        wraps_to_itself(ty, q);
        wraps_to_itself(ty, r);
    }
}

/// The opposite of an integer is exact where the type holds it, and a
/// panic elsewhere.
pub proof fn negation_is_exact(
    m: Machine,
    code: Code,
    o: Outside,
    s: Code,
    ty: IRType,
    operand: Val,
    overflow: Seq<char>,
) -> (l: Machine)
    requires
        is_integer(ty),
        crate::types::signed(ty),
        about_to(m, code, s, unary_op_code(s, IRUnaryOp::Neg, ty, operand, overflow).0),
        known_by(operand, s.log.len() as int),
        is_word(ty, read(o, m.results, operand)),
    ensures
        ({
            let (t, v) = unary_op_code(s, IRUnaryOp::Neg, ty, operand, overflow);
            let x = integer(ty, read(o, m.results, operand));
            if holds_number(ty, -x) {
                &&& comes_through(m, code, o, s, t, l)
                &&& is_word(ty, read(o, l.results, v))
                &&& integer(ty, read(o, l.results, v)) == -x
            } else {
                m.comes_to(code, o, panics_with(code, overflow))
            }
        }),
{
    let (t, v) = unary_op_code(s, IRUnaryOp::Neg, ty, operand, overflow);
    let n = s.log.len() as int;
    let lt = crate::types::value_type(ty);
    let a = read(o, m.results, operand);
    let x = integer(ty, a);
    words_are_integers(ty, a);
    let c1 = s.i(Inst::ITest(Pred::Eq, lt, operand, num(least(lt))));
    let g = fault_guard_code(c1, s.v(0), overflow);
    assert(tidy(c1));
    assert(code.log[n] == t.log[n] && code.log[n + 1] == t.log[n + 1] && code.log[n + 4] == t.log[n + 4]);
    tests(m, code, o, Pred::Eq, lt, operand, num(least(lt)));
    let m1 = m.step(code, o);
    assert(stands(code, g)) by {
        assert forall|i: int| 0 <= i < g.log.len() implies #[trigger] code.log[i] == g.log[i] by {
            assert(code.log[i] == t.log[i]);
        }
        assert forall|i: int| 0 <= i < g.texts.len() implies #[trigger] code.texts[i] == g.texts[i] by {
            assert(code.texts[i] == t.texts[i]);
        }
    }
    let m2 = guard_panics_or_not(m1, code, o, c1, s.v(0), overflow);
    if holds_number(ty, -x) {
        floats(m2, code, o);
        let l = m2.step(code, o);
        assert(read(o, m2.results, operand) == a);
        assert(read(o, l.results, v) == wrapped(lt, -a));
        vstd::arithmetic::div_mod::lemma_mod_add_multiples_vanish(-a, modulus(lt));
        wraps_to_itself(ty, -x);
        l
    } else {
        m
    }
}

/// `not` turns truth values around.
pub proof fn not_turns_around(m: Machine, code: Code, o: Outside, s: Code, operand: Val, overflow: Seq<char>) -> (l:
    Machine)
    requires
        about_to(m, code, s, unary_op_code(s, IRUnaryOp::Not, IRType::Bool, operand, overflow).0),
        0 <= read(o, m.results, operand) <= 1,
    ensures
        ({
            let (t, v) = unary_op_code(s, IRUnaryOp::Not, IRType::Bool, operand, overflow);
            &&& comes_through(m, code, o, s, t, l)
            &&& read(o, l.results, v) == 1 - read(o, m.results, operand)
        }),
{
    let (t, v) = unary_op_code(s, IRUnaryOp::Not, IRType::Bool, operand, overflow);
    assert(code.log[s.log.len() as int] == t.log[s.log.len() as int]);
    floats(m, code, o);
    let x = read(o, m.results, operand);
    vstd::arithmetic::div_mod::lemma_mod_add_multiples_vanish(-1 - x, 2);
    m.step(code, o)
}

/// A comparison of two floats is 1 where they compare so, and 0 elsewhere
/// and wherever one of them is not a number.
pub proof fn float_comparison_compares(
    m: Machine,
    code: Code,
    o: Outside,
    s: Code,
    op: IRBinOp,
    ty: IRType,
    lhs: Val,
    rhs: Val,
    texts: &FaultTexts,
) -> (l: Machine)
    requires
        is_comparison(op),
        ty == IRType::Float32 || ty == IRType::Float64,
        about_to(m, code, s, binary_op_code(s, op, ty, lhs, rhs, texts).0),
    ensures
        ({
            let (t, v) = binary_op_code(s, op, ty, lhs, rhs, texts);
            let lt = if ty == IRType::Float32 { LType::F32 } else { LType::F64 };
            let d = (o.floats.compare)(lt, read(o, m.results, lhs), read(o, m.results, rhs));
            &&& comes_through(m, code, o, s, t, l)
            &&& read(o, l.results, v) == bit(d is Some && compares(op, d->0, 0))
        }),
{
    let (t, v) = binary_op_code(s, op, ty, lhs, rhs, texts);
    assert(code.log[s.log.len() as int] == t.log[s.log.len() as int]);
    floats(m, code, o);
    m.step(code, o)
}

/// The float operation of an operator.
pub open spec fn float_operation(op: IRBinOp) -> BinOp {
    match op {
        IRBinOp::Add => BinOp::FAdd,
        IRBinOp::Sub => BinOp::FSub,
        IRBinOp::Mul => BinOp::FMul,
        IRBinOp::Div => BinOp::FDiv,
        _ => BinOp::FRem,
    }
}

/// Float arithmetic gives what the operation gives where that is finite
/// (its magnitude below infinity), and panics elsewhere.
pub proof fn float_arithmetic_is_finite(
    m: Machine,
    code: Code,
    o: Outside,
    s: Code,
    op: IRBinOp,
    ty: IRType,
    lhs: Val,
    rhs: Val,
    texts: &FaultTexts,
) -> (l: Machine)
    requires
        !is_comparison(op),
        ty == IRType::Float32 || ty == IRType::Float64,
        about_to(m, code, s, binary_op_code(s, op, ty, lhs, rhs, texts).0),
    ensures
        ({
            let (t, v) = binary_op_code(s, op, ty, lhs, rhs, texts);
            let lt = if ty == IRType::Float32 { LType::F32 } else { LType::F64 };
            let z = (o.floats.bin)(
                float_operation(op),
                lt,
                read(o, m.results, lhs),
                read(o, m.results, rhs),
            );
            let d = (o.floats.compare)(
                lt,
                (o.floats.magnitude)(lt, z),
                (o.values)(Val::Float(0x7ff0_0000_0000_0000)),
            );
            if d is Some && d->0 < 0 {
                &&& comes_through(m, code, o, s, t, l)
                &&& read(o, l.results, v) == z
            } else {
                m.comes_to(code, o, panics_with(code, texts.non_finite@))
            }
        }),
{
    let (t, v) = binary_op_code(s, op, ty, lhs, rhs, texts);
    let n = s.log.len() as int;
    let lt = if ty == IRType::Float32 { LType::F32 } else { LType::F64 };
    let form = float_operation(op);
    let c4 = s.i(Inst::Bin(form, lt, lhs, rhs))
        .i(Inst::FAbs(lt, s.v(0)))
        .i(Inst::FTest(Pred::Olt, lt, s.v(1), Val::Float(INFINITY_BITS)))
        .i(Inst::Not(LType::I1, s.v(2)));
    assert(t == fault_guard_code(c4, s.v(3), texts.non_finite@));
    assert(code.log[n] == t.log[n] && code.log[n + 1] == t.log[n + 1] && code.log[n + 2] == t.log[n + 2]
        && code.log[n + 3] == t.log[n + 3] && code.log[n + 4] == t.log[n + 4]);
    assert(tidy(c4));
    floats(m, code, o);
    let m1 = m.step(code, o);
    floats(m1, code, o);
    let m2 = m1.step(code, o);
    floats(m2, code, o);
    let m3 = m2.step(code, o);
    floats(m3, code, o);
    let m4 = m3.step(code, o);
    let b = read(o, m3.results, s.v(2));
    vstd::arithmetic::div_mod::lemma_mod_add_multiples_vanish(-1 - b, 2);
    assert(read(o, m4.results, s.v(3)) == 1 - b);
    guard_panics_or_not(m4, code, o, c4, s.v(3), texts.non_finite@)
}

/// A float is turned into its opposite, and nothing panics.
pub proof fn float_negation(m: Machine, code: Code, o: Outside, s: Code, ty: IRType, operand: Val, overflow: Seq<char>) -> (l:
    Machine)
    requires
        ty == IRType::Float32 || ty == IRType::Float64,
        about_to(m, code, s, unary_op_code(s, IRUnaryOp::Neg, ty, operand, overflow).0),
    ensures
        ({
            let (t, v) = unary_op_code(s, IRUnaryOp::Neg, ty, operand, overflow);
            let lt = if ty == IRType::Float32 { LType::F32 } else { LType::F64 };
            &&& comes_through(m, code, o, s, t, l)
            &&& read(o, l.results, v) == (o.floats.opposite)(lt, read(o, m.results, operand))
        }),
{
    let (t, v) = unary_op_code(s, IRUnaryOp::Neg, ty, operand, overflow);
    assert(code.log[s.log.len() as int] == t.log[s.log.len() as int]);
    floats(m, code, o);
    m.step(code, o)
}

/// Strings are equal where the runtime answers that they are, with any
/// number but zero; `!=` is the opposite.
pub proof fn strings_compare(
    m: Machine,
    code: Code,
    o: Outside,
    s: Code,
    op: IRBinOp,
    lhs: Val,
    rhs: Val,
    texts: &FaultTexts,
) -> (l: Machine)
    requires
        op == IRBinOp::Eq || op == IRBinOp::NotEq,
        about_to(m, code, s, binary_op_code(s, op, IRType::String, lhs, rhs, texts).0),
        0 <= (o.calls)(
            Callee::Runtime(Rt::StringEq),
            seq![read(o, m.results, lhs), read(o, m.results, rhs)],
            m.memory,
        ).0 <= u64::MAX,
    ensures
        ({
            let (t, v) = binary_op_code(s, op, IRType::String, lhs, rhs, texts);
            let (answer, after) = (o.calls)(
                Callee::Runtime(Rt::StringEq),
                seq![read(o, m.results, lhs), read(o, m.results, rhs)],
                m.memory,
            );
            &&& m.leads_to(code, o, l)
            &&& l.at == t.log.len()
            &&& l.returned is None
            &&& l.memory == after
            &&& read(o, l.results, v) == bit((answer != 0) == (op == IRBinOp::Eq))
        }),
{
    let (t, v) = binary_op_code(s, op, IRType::String, lhs, rhs, texts);
    let n = s.log.len() as int;
    assert(code.log[n] == t.log[n] && code.log[n + 1] == t.log[n + 1]);
    let args = seq![read(o, m.results, lhs), read(o, m.results, rhs)];
    assert(arguments(o, m.results, a2(lhs, rhs)) =~= args) by {
        reveal_with_fuel(arguments, 4);
    }
    calls(m, code, o, Callee::Runtime(Rt::StringEq), a2(lhs, rhs));
    let m1 = m.step(code, o);
    tests(m1, code, o, if op == IRBinOp::Eq { Pred::Ne } else { Pred::Eq }, LType::I64, s.v(0), num(0));
    m1.step(code, o)
}

/// Widening an integer keeps the number.
pub proof fn widening_keeps_the_number(
    m: Machine,
    code: Code,
    o: Outside,
    s: Code,
    from: IRType,
    to: IRType,
    value: Val,
)
    requires
        is_integer(from),
        is_integer(to),
        widening(from, to) is Some,
        span(to).0 <= span(from).0,
        span(from).1 <= span(to).1,
        is_word(from, read(o, m.results, value)),
        m.faces(
            code,
            Inst::Cast((widening(from, to)->0).0, crate::types::value_type(from), value, (widening(from, to)->0).1),
        ),
        m.flows(code),
    ensures
        m.runs_on(code, o),
        ({
            let x = m.step(code, o).results[m.at as usize];
            &&& is_word(to, x)
            &&& integer(to, x) == integer(from, read(o, m.results, value))
        }),
{
    let (op, ty) = widening(from, to)->0;
    let x = read(o, m.results, value);
    words_are_integers(from, x);
    converts(m, code, o, op, crate::types::value_type(from), value, ty);
    wraps_to_itself(to, integer(from, x));
}

} // verus!
