//! The text of a function's body says what the body is: block by block,
//! the recorded instructions of each in their order.

use vstd::prelude::*;
use crate::ctx::{Declared, EmitContext};
use crate::llvm::{CastOp, Code, Edge, Entry, LType};
use crate::print::faithful::{can_be_spelled, instruction_is_read_back, lines_of};
use crate::print::functions::{blocks_text, entries_text, function_text, params_text, slots_text};
use crate::print::read_back::{
    at_chars, at_join, begins, common_types_are_spelled, ends_value, escaped_appends, label_is_read, label_spells,
    label_word, piece, pointer_spells, quoted_name, type_spells, type_word,
};
use crate::print::read_lines::{
    at_another, begins_with, cast_is_told, definition_is_read, list_ends, local_is_told, operand_is_listed, operand_is_read,
    star, told_alloca, two_lines, type_begins, type_ends_line, type_is_told,
};
use crate::print::reading::{at, label_at, line_at, lines_at, operands_at, type_at, Line, Said, What};
use crate::print::types::type_text;
use crate::print::values::{label_text, Names};
use crate::text::{decimal, escaped};

verus! {

/// Lines one behind the other.
pub proof fn lines_join(t: Seq<char>, p: int, a: Seq<Line>, q: int, b: Seq<Line>, e: int)
    requires
        lines_at(t, p, a.len()) == Some((a, q)),
        lines_at(t, q, b.len()) == Some((b, e)),
    ensures
        lines_at(t, p, (a + b).len()) == Some((a + b, e)),
    decreases a.len(),
{
    if a.len() == 0 {
        assert(a + b =~= b);
    } else {
        let (line, r) = line_at(t, p)->0;
        let (rest, x) = lines_at(t, r, (a.len() - 1) as nat)->0;
        assert(a == seq![line] + rest);
        assert(rest =~= a.drop_first());
        lines_join(t, r, rest, q, b, e);
        assert((rest + b).len() == (a + b).len() - 1);
        assert(seq![line] + (rest + b) =~= a + b);
    }
}

/// The lines of those of the first `k` instructions that stand in a block.
pub open spec fn block_lines(c: &EmitContext, nm: Names, edges: Seq<Edge>, log: Seq<Entry>, block: usize, k: nat) -> Seq<
    Line,
>
    decreases k,
{
    if k == 0 {
        Seq::empty()
    } else {
        let before = block_lines(c, nm, edges, log, block, (k - 1) as nat);
        if log[k - 1].block == block {
            before + lines_of(c, nm, edges, (k - 1) as usize, log[k - 1].inst)
        } else {
            before
        }
    }
}

/// Reading what is printed of a block gives back its instructions, in the
/// order in which they were recorded.
pub proof fn block_is_read_back(
    t: Seq<char>,
    o: Seq<char>,
    c: &EmitContext,
    nm: Names,
    edges: Seq<Edge>,
    log: Seq<Entry>,
    block: usize,
    k: nat,
)
    requires
        k <= log.len() <= usize::MAX,
        begins(t, entries_text(c, nm, o, edges, log, block, k)),
        forall|i: int| 0 <= i < log.len() ==> can_be_spelled(c, (#[trigger] log[i]).inst),
    ensures
        begins(t, o),
        lines_at(t, o.len() as int, block_lines(c, nm, edges, log, block, k).len()) == Some(
            (
                block_lines(c, nm, edges, log, block, k),
                entries_text(c, nm, o, edges, log, block, k).len() as int,
            ),
        ),
    decreases k,
{
    if k > 0 {
        let before = entries_text(c, nm, o, edges, log, block, (k - 1) as nat);
        if log[k - 1].block == block {
            let inst = log[k - 1].inst;
            assert(can_be_spelled(c, log[k - 1].inst));
            instruction_is_read_back(t, before, c, nm, edges, (k - 1) as usize, inst);
            block_is_read_back(t, o, c, nm, edges, log, block, (k - 1) as nat);
            lines_join(
                t,
                o.len() as int,
                block_lines(c, nm, edges, log, block, (k - 1) as nat),
                before.len() as int,
                lines_of(c, nm, edges, (k - 1) as usize, inst),
                entries_text(c, nm, o, edges, log, block, k).len() as int,
            );
        } else {
            block_is_read_back(t, o, c, nm, edges, log, block, (k - 1) as nat);
        }
    }
}

/// The stack slots, the last one first: each is made and then named as an
/// address.
pub open spec fn slot_lines(c: &EmitContext, slots: Seq<LType>, k: nat) -> Seq<Line>
    decreases k,
{
    if k == 0 {
        Seq::empty()
    } else {
        let n = (slots.len() - k) as nat;
        slot_lines(c, slots, (k - 1) as nat) + seq![
            Line::Define('t', n, What::Alloca(type_word(c, slots[n as int]))),
            Line::Define(
                's',
                n,
                What::Cast(
                    CastOp::BitCast,
                    star(type_word(c, slots[n as int])),
                    Said::Local('t', n),
                    type_word(c, LType::Ptr),
                ),
            ),
        ]
    }
}

/// Reading what is printed of the stack slots gives back their types, each
/// under its own number.
pub proof fn slots_are_read_back(t: Seq<char>, o: Seq<char>, c: &EmitContext, slots: Seq<LType>, k: nat)
    requires
        k <= slots.len(),
        begins(t, slots_text(c, o, slots, k)),
    ensures
        begins(t, o),
        lines_at(t, o.len() as int, slot_lines(c, slots, k).len()) == Some(
            (slot_lines(c, slots, k), slots_text(c, o, slots, k).len() as int),
        ),
    decreases k,
{
    if k > 0 {
        let n = (slots.len() - k) as nat;
        let ty = slots[n as int];
        let w = type_word(c, ty);
        let d = decimal(n);
        reveal_strlit("  %t");
        reveal_strlit(" = alloca ");
        reveal_strlit(" = ");
        reveal_strlit("alloca");
        reveal_strlit(" ");
        reveal_strlit("\n  %s");
        reveal_strlit("\n");
        reveal_strlit("  %s");
        reveal_strlit(" = bitcast ");
        reveal_strlit("bitcast");
        reveal_strlit("* %t");
        reveal_strlit("*");
        reveal_strlit("%t");
        reveal_strlit(" to i8*\n");
        reveal_strlit(" to ");
        reveal_strlit("i8*");
        let o0 = slots_text(c, o, slots, (k - 1) as nat);
        let o1 = o0 + "  %t"@;
        let o2 = o1 + d;
        let o3 = o2 + " = alloca "@;
        let o4 = type_text(c, o3, ty);
        let o5 = o4 + "\n  %s"@;
        let o6 = o5 + d;
        let o7 = o6 + " = bitcast "@;
        let o8 = type_text(c, o7, ty);
        let o9 = o8 + "* %t"@;
        let p0 = o9 + d;
        let p1 = p0 + " to i8*\n"@;
        piece(t, p0, " to i8*\n"@);
        piece(t, o9, d);
        piece(t, o8, "* %t"@);
        type_spells(c, o7, ty);
        piece(t, o7, w);
        piece(t, o6, " = bitcast "@);
        piece(t, o5, d);
        piece(t, o4, "\n  %s"@);
        type_spells(c, o3, ty);
        piece(t, o3, w);
        piece(t, o2, " = alloca "@);
        piece(t, o1, d);
        piece(t, o0, "  %t"@);
        begins_with(t, o2.len() as int, " = alloca "@, " = "@, "alloca"@ + " "@);
        begins_with(t, o2.len() as int + 3, "alloca"@ + " "@, "alloca"@, " "@);
        begins_with(t, o4.len() as int, "\n  %s"@, "\n"@, "  %s"@);
        begins_with(t, o6.len() as int, " = bitcast "@, " = "@, "bitcast"@ + " "@);
        begins_with(t, o6.len() as int + 3, "bitcast"@ + " "@, "bitcast"@, " "@);
        begins_with(t, o8.len() as int, "* %t"@, "*"@, " "@ + "%t"@);
        begins_with(t, o8.len() as int + 1, " "@ + "%t"@, " "@, "%t"@);
        begins_with(t, p0.len() as int, " to i8*\n"@, " to "@, "i8*"@ + "\n"@);
        begins_with(t, p0.len() as int + 4, "i8*"@ + "\n"@, "i8*"@, "\n"@);
        type_is_told(t, o3.len() as int, w, "\n"@);
        told_alloca();
        definition_is_read(t, o0.len() as int, "  %t"@, n, "alloca"@, " "@);
        let a = Line::Define('t', n, What::Alloca(w));
        assert(line_at(t, o0.len() as int) == Some((a, o4.len() as int + 1)));
        local_is_told(t, o8.len() as int + 2, "%t"@, n, " to "@);
        at_join(t, o7.len() as int, w, "*"@);
        pointer_spells(w);
        operand_is_read(t, o7.len() as int, star(w), Said::Local('t', n), p0.len() as int);
        common_types_are_spelled(c);
        type_spells(c, Seq::empty(), LType::Ptr);
        type_ends_line(t, p0.len() as int + 4, type_word(c, LType::Ptr));
        cast_is_told(CastOp::BitCast);
        definition_is_read(t, o4.len() as int + 1, "  %s"@, n, "bitcast"@, " "@);
        let b = Line::Define(
            's',
            n,
            What::Cast(CastOp::BitCast, star(w), Said::Local('t', n), type_word(c, LType::Ptr)),
        );
        assert(line_at(t, o4.len() as int + 1) == Some((b, p1.len() as int)));
        two_lines(t, o0.len() as int, a, o4.len() as int + 1, b, p1.len() as int);
        slots_are_read_back(t, o, c, slots, (k - 1) as nat);
        lines_join(
            t,
            o.len() as int,
            slot_lines(c, slots, (k - 1) as nat),
            o0.len() as int,
            seq![a, b],
            p1.len() as int,
        );
    }
}

/// Where the instructions of a block begin in the text: behind its label.
pub open spec fn block_begins_at(t: Seq<char>, p: int, b: nat) -> Option<int> {
    match label_at(t, p) {
        Some((n, e)) => if n == b && at(t, e, ":\n"@) {
            Some(e + 2)
        } else {
            None
        },
        None => None,
    }
}

/// The lines of a block, with the stack slots at the head of the first.
pub open spec fn lines_of_block(c: &EmitContext, nm: Names, code: Code, b: nat) -> Seq<Line> {
    let own = block_lines(c, nm, code.edges, code.log, b as usize, code.log.len());
    if b == 0 {
        slot_lines(c, code.slots, code.slots.len()) + own
    } else {
        own
    }
}

/// Where the text of the block `b` begins.
pub open spec fn text_of_block_at(c: &EmitContext, nm: Names, o: Seq<char>, code: Code, b: nat) -> int {
    blocks_text(c, nm, o, code, b).len() as int
}

/// Reading what is printed of a body gives back every block under its
/// number, with its instructions in their order.
pub proof fn body_is_read_back(t: Seq<char>, o: Seq<char>, c: &EmitContext, nm: Names, code: Code, k: nat, b: nat)
    requires
        b < k,
        code.log.len() <= usize::MAX,
        begins(t, blocks_text(c, nm, o, code, k)),
        forall|i: int| 0 <= i < code.log.len() ==> can_be_spelled(c, (#[trigger] code.log[i]).inst),
    ensures
        begins(t, o),
        ({
            let p = text_of_block_at(c, nm, o, code, b);
            let lines = lines_of_block(c, nm, code, b);
            &&& block_begins_at(t, p, b) is Some
            &&& lines_at(t, block_begins_at(t, p, b)->0, lines.len()) == Some(
                (lines, text_of_block_at(c, nm, o, code, b + 1)),
            )
        }),
    decreases k,
{
    let x = (k - 1) as nat;
    let o0 = blocks_text(c, nm, o, code, x);
    let o1 = label_text(o0, nm.labels, x);
    let o2 = o1 + ":\n"@;
    let o3 = if x == 0 {
        slots_text(c, o2, code.slots, code.slots.len())
    } else {
        o2
    };
    reveal_strlit(":\n");
    block_is_read_back(t, o3, c, nm, code.edges, code.log, x as usize, code.log.len());
    if x == 0 {
        slots_are_read_back(t, o2, c, code.slots, code.slots.len());
    }
    piece(t, o1, ":\n"@);
    label_spells(o0, nm.labels, x);
    piece(t, o0, label_word(nm.labels, x));
    label_is_read(t, o0.len() as int, nm.labels, x);
    if x > 0 {
        body_is_read_back(t, o, c, nm, code, x, (x - 1) as nat);
    }
    if b == x {
        if x == 0 {
            lines_join(
                t,
                o2.len() as int,
                slot_lines(c, code.slots, code.slots.len()),
                o3.len() as int,
                block_lines(c, nm, code.edges, code.log, 0, code.log.len()),
                text_of_block_at(c, nm, o, code, 1),
            );
        }
    } else {
        body_is_read_back(t, o, c, nm, code, x, b);
    }
}

/// The parameters from the `k`-th on, each behind its type.
pub open spec fn param_list(c: &EmitContext, params: Seq<LType>, k: nat) -> Seq<(Seq<char>, Said)>
    decreases params.len() - k,
{
    if k >= params.len() {
        Seq::empty()
    } else {
        seq![(type_word(c, params[k as int]), Said::Local('a', k))] + param_list(c, params, k + 1)
    }
}

/// Reading what is printed of a function's parameters gives back their
/// types, each under its own number.
pub proof fn parameters_are_read_back(t: Seq<char>, o: Seq<char>, c: &EmitContext, params: Seq<LType>, k: nat)
    requires
        k <= params.len(),
        begins(t, params_text(c, o, params, params.len()) + ") uwtable \"frame-pointer\"=\"all\" {\n"@),
    ensures
        begins(t, params_text(c, o, params, k)),
        operands_at(
            t,
            params_text(c, o, params, k).len() as int,
            k == 0,
            ") uwtable \"frame-pointer\"=\"all\" {\n"@,
        ) == Some(
            (
                param_list(c, params, k),
                (params_text(c, o, params, params.len()) + ") uwtable \"frame-pointer\"=\"all\" {\n"@).len() as int,
            ),
        ),
        k > 0 ==> params_text(c, o, params, k).len() < t.len() && ends_value(
            t[params_text(c, o, params, k).len() as int],
        ),
    decreases params.len() - k,
{
    let close = ") uwtable \"frame-pointer\"=\"all\" {\n"@;
    reveal_strlit(") uwtable \"frame-pointer\"=\"all\" {\n");
    reveal_strlit(", ");
    reveal_strlit(" %a");
    reveal_strlit(" ");
    reveal_strlit("%a");
    let o0 = params_text(c, o, params, k);
    let p = o0.len() as int;
    if k == params.len() {
        piece(t, o0, close);
        at_chars(t, p, close);
        assert(close[0] == t[p + 0]);
        list_ends(t, p, k == 0, close);
    } else {
        parameters_are_read_back(t, o, c, params, k + 1);
        let ty = params[k as int];
        let w = type_word(c, ty);
        let o1 = if k > 0 {
            o0 + ", "@
        } else {
            o0
        };
        let o2 = type_text(c, o1, ty);
        let o3 = o2 + " %a"@;
        let o4 = o3 + decimal(k);
        assert(o4 == params_text(c, o, params, k + 1));
        piece(t, o3, decimal(k));
        piece(t, o2, " %a"@);
        type_spells(c, o1, ty);
        piece(t, o1, w);
        begins_with(t, o2.len() as int, " %a"@, " "@, "%a"@);
        let next = seq![t[o4.len() as int]];
        assert(at(t, o4.len() as int, next)) by {
            reveal(at);
            assert(t.subrange(o4.len() as int, o4.len() as int + 1) =~= next);
        }
        local_is_told(t, o2.len() as int + 1, "%a"@, k, next);
        operand_is_read(t, o1.len() as int, w, Said::Local('a', k), o4.len() as int);
        type_begins(c, ty);
        at_chars(t, o1.len() as int, w);
        if k > 0 {
            piece(t, o0, ", "@);
            at_chars(t, p, ", "@);
            assert(", "@[0] == t[p + 0]);
            at_another(t, p, ", "@, close);
        } else {
            at_another(t, p, w, close);
        }
        operand_is_listed(
            t,
            p,
            k == 0,
            close,
            w,
            Said::Local('a', k),
            o4.len() as int,
            param_list(c, params, k + 1),
            (params_text(c, o, params, params.len()) + close).len() as int,
        );
    }
}

/// The text goes on with the first block of a body.
pub open spec fn begins_with_block(t: Seq<char>, p: int, c: &EmitContext, nm: Names, code: Code) -> bool {
    let lines = lines_of_block(c, nm, code, 0);
    match block_begins_at(t, p, 0) {
        Some(b) => match lines_at(t, b, lines.len()) {
            Some((read, _)) => read == lines,
            None => false,
        },
        None => false,
    }
}

/// Reading what is printed of a function that is defined gives back its
/// result type, its name and its parameters, and behind them its body.
pub proof fn function_is_read_back(t: Seq<char>, o: Seq<char>, c: &EmitContext, nm: Names, d: Declared, code: Code)
    requires
        d.defined,
        code.log.len() > 0,
        begins(t, function_text(c, nm, o, d, code)),
        0 < code.blocks,
        code.log.len() <= usize::MAX,
        forall|i: int| 0 <= i < code.log.len() ==> can_be_spelled(c, (#[trigger] code.log[i]).inst),
    ensures
        ({
            let p = o.len() as int;
            let name = quoted_name(d.name@, Seq::empty());
            let (ret, q) = type_at(t, p + 7);
            let close = ") uwtable \"frame-pointer\"=\"all\" {\n"@;
            &&& at(t, p, "define "@)
            &&& ret == type_word(c, d.ret)
            &&& at(t, q, " "@)
            &&& at(t, q + 1, name)
            &&& at(t, q + 1 + name.len(), "("@)
            &&& operands_at(t, q + 2 + name.len(), true, close) matches Some((params, e)) && params
                == param_list(c, d.params@, 0) && begins_with_block(t, e, c, nm, code)
        }),
{
    reveal_strlit("define ");
    reveal_strlit(" @\"");
    reveal_strlit("@\"");
    reveal_strlit(" ");
    reveal_strlit("\"(");
    reveal_strlit("\"");
    reveal_strlit("(");
    reveal_strlit("}\n");
    let close = ") uwtable \"frame-pointer\"=\"all\" {\n"@;
    let o1 = o + "define "@;
    let o2 = type_text(c, o1, d.ret);
    let o3 = o2 + " @\""@;
    let o4 = escaped(o3, d.name@);
    let o5 = o4 + "\"("@;
    let o6 = params_text(c, o5, d.params@, d.params@.len()) + close;
    let o7 = blocks_text(c, nm, o6, code, code.blocks);
    piece(t, o7, "}\n"@);
    body_is_read_back(t, o6, c, nm, code, code.blocks, 0);
    parameters_are_read_back(t, o5, c, d.params@, 0);
    piece(t, o4, "\"("@);
    let x = escaped(Seq::empty(), d.name@);
    escaped_appends(o3, d.name@);
    escaped_appends("@\""@, d.name@);
    piece(t, o3, x);
    piece(t, o2, " @\""@);
    type_spells(c, o1, d.ret);
    piece(t, o1, type_word(c, d.ret));
    piece(t, o, "define "@);
    type_is_told(t, o1.len() as int, type_word(c, d.ret), " @\""@);
    begins_with(t, o2.len() as int, " @\""@, " "@, "@\""@);
    begins_with(t, o4.len() as int, "\"("@, "\""@, "("@);
    at_join(t, o2.len() as int + 1, "@\""@, x);
    at_join(t, o2.len() as int + 1, "@\""@ + x, "\""@);
    assert(quoted_name(d.name@, Seq::empty()) =~= "@\""@ + x + "\""@);
}

} // verus!
