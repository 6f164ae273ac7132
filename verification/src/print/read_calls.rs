//! Calls, phis and switches that are printed are read back, and with them
//! every instruction.

use vstd::prelude::*;
use crate::ctx::EmitContext;
use crate::function::return_type;
use crate::llvm::{Args, Callee, Cases, CastOp, Edge, Inst, LType, Val};
use crate::print::insts::{
    args_text, call_head_text, call_text, cases_text, closure_params, control_text, edges_text,
    has_edge, phi_text, target_text,
};
use crate::print::read_back::{
    at_chars, at_join, begins, decimal_is_plain, ends_value, escaped_appends, fn_type_spells,
    fn_type_word, free_of, label_is_read, label_spells, label_word, piece, quoted_name, said,
    spells_type, type_spells, type_word, until_finds, value_spells, value_word,
};
use crate::print::read_lines::{
    at_another, begins_with, cast_is_told, definition_is_read, doing_is_read, done_call,
    done_switch, list_ends, number_is_told, one_line, operand_is_listed, operand_is_read,
    rest_is_read, star, told_call, told_freeze, told_phi, two_lines, type_begins, type_is_told,
    value_is_told,
};
use crate::print::reading::{
    arms_at, at, call_at, edges_at, line_at, lines_at, operands_at, Line, Said, What,
};
use crate::print::types::{fn_type_text, type_text};
use crate::print::values::{label_text, value_text, Names};
use crate::runtime::{link_text, rt_ret, rt_sig, Rt};
use crate::text::{decimal, escaped};

verus! {

/// The type of an argument: an argument without a parameter is an `i64`.
pub open spec fn arg_type(types: Seq<LType>, i: nat) -> LType {
    if i < types.len() {
        types[i as int]
    } else {
        LType::I64
    }
}

/// Arguments behind their types.
pub open spec fn arg_list(c: &EmitContext, nm: Names, types: Seq<LType>, i: nat, args: Args) -> Seq<
    (Seq<char>, Said),
>
    decreases args,
{
    match args {
        Args::Nil => Seq::empty(),
        Args::Cons(val, rest) => seq![(type_word(c, arg_type(types, i)), said(c, nm, val))] + arg_list(
            c,
            nm,
            types,
            i + 1,
            *rest,
        ),
    }
}

/// Arguments that are printed are read back.
pub proof fn args_are_read(
    t: Seq<char>,
    o: Seq<char>,
    c: &EmitContext,
    nm: Names,
    types: Seq<LType>,
    i: nat,
    args: Args,
)
    requires
        begins(t, args_text(c, nm, o, types, i, args) + ")\n"@),
    ensures
        begins(t, o),
        o.len() < t.len(),
        i > 0 ==> ends_value(t[o.len() as int]),
        operands_at(t, o.len() as int, i == 0, ")\n"@) == Some(
            (
                arg_list(c, nm, types, i, args),
                (args_text(c, nm, o, types, i, args) + ")\n"@).len() as int,
            ),
        ),
    decreases args,
{
    reveal_strlit(")\n");
    reveal_strlit(", ");
    reveal_strlit(" ");
    let p = o.len() as int;
    match args {
        Args::Nil => {
            piece(t, o, ")\n"@);
            at_chars(t, p, ")\n"@);
            assert(")\n"@[0] == t[p + 0]);
            list_ends(t, p, i == 0, ")\n"@);
        },
        Args::Cons(val, rest) => {
            let o1 = if i > 0 {
                o + ", "@
            } else {
                o
            };
            let ty = arg_type(types, i);
            let o2 = type_text(c, o1, ty);
            let o3 = o2 + " "@;
            let o4 = value_text(c, nm, o3, val);
            args_are_read(t, o4, c, nm, types, i + 1, *rest);
            value_spells(c, nm, o3, val);
            piece(t, o3, value_word(c, nm, val));
            piece(t, o2, " "@);
            type_spells(c, o1, ty);
            piece(t, o1, type_word(c, ty));
            crate::print::read_back::value_is_read(t, o3.len() as int, c, nm, val);
            operand_is_read(t, o1.len() as int, type_word(c, ty), said(c, nm, val), o4.len() as int);
            type_begins(c, ty);
            at_chars(t, o1.len() as int, type_word(c, ty));
            if i > 0 {
                piece(t, o, ", "@);
                at_chars(t, p, ", "@);
                assert(", "@[0] == t[p + 0]);
                at_another(t, p, ", "@, ")\n"@);
            } else {
                at_another(t, p, type_word(c, ty), ")\n"@);
            }
            operand_is_listed(
                t,
                p,
                i == 0,
                ")\n"@,
                type_word(c, ty),
                said(c, nm, val),
                o4.len() as int,
                arg_list(c, nm, types, i + 1, *rest),
                (args_text(c, nm, o4, types, i + 1, *rest) + ")\n"@).len() as int,
            );
        },
    }
}

/// A call behind its mnemonic.
pub proof fn call_is_told(
    t: Seq<char>,
    p: int,
    ret: Seq<char>,
    callee: Seq<char>,
    args: Seq<(Seq<char>, Said)>,
    e: int,
)
    requires
        spells_type(ret),
        at(t, p, ret),
        at(t, p + ret.len(), " "@),
        at(t, p + ret.len() + 1, callee),
        free_of(callee, '('),
        at(t, p + ret.len() + 1 + callee.len(), "("@),
        operands_at(t, p + ret.len() + 2 + callee.len(), true, ")\n"@) == Some((args, e)),
    ensures
        call_at(t, p) == Some((ret, callee, args, e)),
{
    reveal(call_at);
    reveal_strlit(" ");
    reveal_strlit("(");
    let q = p + ret.len();
    let a = q + 1 + callee.len();
    type_is_told(t, p, ret, " "@);
    at_chars(t, q, " "@);
    at_chars(t, q + 1, callee);
    at_chars(t, a, "("@);
    assert(" "@[0] == t[q + 0] && "("@[0] == t[a + 0]);
    assert forall|i: int| q <= i < a implies #[trigger] t[i] != '(' by {
        if i > q {
            assert(callee[i - q - 1] == t[q + 1 + (i - q - 1)]);
        }
    }
    until_finds(t, q, a, '(');
}

/// The line of a call: it defines its result, where it has one.
pub open spec fn call_line(n: nat, void: bool, ret: Seq<char>, callee: Seq<char>, args: Seq<(Seq<char>, Said)>) -> Line {
    if void {
        Line::Call(ret, callee, args)
    } else {
        Line::Define('v', n, What::Call(ret, callee, args))
    }
}

/// The beginning of a call.
pub proof fn call_head_is_read(
    t: Seq<char>,
    o: Seq<char>,
    c: &EmitContext,
    n: usize,
    ret: LType,
    callee: Seq<char>,
    args: Seq<(Seq<char>, Said)>,
    e: int,
)
    requires
        begins(t, call_head_text(c, o, n, ret)),
        at(t, call_head_text(c, o, n, ret).len() as int, callee),
        free_of(callee, '('),
        at(t, call_head_text(c, o, n, ret).len() as int + callee.len(), "("@),
        operands_at(t, call_head_text(c, o, n, ret).len() as int + callee.len() + 1, true, ")\n"@) == Some((args, e)),
    ensures
        begins(t, o),
        line_at(t, o.len() as int) == Some(
            (call_line(n as nat, ret == LType::Void, type_word(c, ret), callee, args), e),
        ),
{
    reveal_strlit("  ");
    reveal_strlit("call ");
    reveal_strlit("call");
    reveal_strlit(" ");
    reveal_strlit("  %v");
    reveal_strlit(" = ");
    let a = if ret == LType::Void {
        o + "  "@
    } else {
        target_text(o, n)
    };
    let b = a + "call "@;
    let d = type_text(c, b, ret);
    piece(t, d, " "@);
    type_spells(c, b, ret);
    piece(t, b, type_word(c, ret));
    piece(t, a, "call "@);
    begins_with(t, a.len() as int, "call "@, "call"@, " "@);
    call_is_told(t, b.len() as int, type_word(c, ret), callee, args, e);
    if ret == LType::Void {
        piece(t, o, "  "@);
        done_call();
        doing_is_read(t, o.len() as int, "call"@, " "@);
    } else {
        let x = o + "  %v"@;
        let y = x + decimal(n as nat);
        piece(t, y, " = "@);
        piece(t, x, decimal(n as nat));
        piece(t, o, "  %v"@);
        told_call();
        definition_is_read(t, o.len() as int, "  %v"@, n as nat, "call"@, " "@);
    }
}

proof fn link_names_are_plain(rt: Rt)
    ensures
        free_of(link_text(rt), '('),
{
    reveal_strlit("malloc");
    reveal_strlit("free");
    reveal_strlit("memcpy");
    reveal_strlit("memset");
    reveal_strlit("memcmp");
    reveal_strlit("koja_rc_inc");
    reveal_strlit("koja_rc_dec");
    reveal_strlit("koja_closure_rc_dec");
    reveal_strlit("koja_closure_deep_copy");
    reveal_strlit("koja_heap_deep_copy");
    reveal_strlit("__koja_panic");
    reveal_strlit("__koja_concat_bits");
    reveal_strlit("koja_string_eq");
    reveal_strlit("koja_string_length");
    reveal_strlit("koja_string_get");
    reveal_strlit("koja_string_slice");
    reveal_strlit("koja_string_contains_nul");
    reveal_strlit("koja_binary_slice");
    reveal_strlit("koja_utf8_validate");
    reveal_strlit("koja_format_bool");
    reveal_strlit("koja_format_i64");
    reveal_strlit("koja_format_u64");
    reveal_strlit("koja_format_f32");
    reveal_strlit("koja_format_f64");
    reveal_strlit("koja_int_parse");
    reveal_strlit("koja_float_parse");
    reveal_strlit("koja_rt_self");
    reveal_strlit("koja_rt_send");
    reveal_strlit("koja_rt_send_after");
    reveal_strlit("koja_rt_send_lifecycle");
    reveal_strlit("koja_rt_kill");
    reveal_strlit("koja_rt_is_process_alive");
    reveal_strlit("koja_rt_call_token");
    reveal_strlit("koja_rt_call_receive");
    reveal_strlit("koja_rt_reply");
    reveal_strlit("koja_rt_spawn");
    reveal_strlit("koja_rt_receive");
    reveal_strlit("koja_rt_receive_timeout");
    reveal_strlit("koja_rt_set_priority");
    reveal_strlit("koja_rt_yield_check");
    reveal_strlit("koja_last_error");
    reveal_strlit("koja_socket_resolve");
    reveal_strlit("koja_socket_recv_from");
}

/// The lines of a call.
pub open spec fn call_lines(c: &EmitContext, nm: Names, n: nat, callee: Callee, args: Args) -> Seq<Line> {
    match callee {
        Callee::Function(k) => {
            let d = c.declared@[k as int];
            seq![
                call_line(
                    n,
                    d.ret == LType::Void,
                    type_word(c, d.ret),
                    quoted_name(d.name@, Seq::empty()),
                    arg_list(c, nm, d.params@, 0, args),
                ),
            ]
        },
        Callee::Runtime(rt) => seq![
            call_line(
                n,
                rt_ret(rt) == LType::Void,
                type_word(c, rt_ret(rt)),
                "@"@ + link_text(rt),
                arg_list(c, nm, rt_sig(rt), 0, args),
            ),
        ],
        Callee::Pointer(code, signature) => {
            let params = closure_params(c, signature);
            let ret = return_type(c.result_of(signature));
            seq![
                Line::Define(
                    'p',
                    n,
                    What::Cast(
                        CastOp::BitCast,
                        type_word(c, LType::Ptr),
                        said(c, nm, code),
                        star(fn_type_word(c, params, ret)),
                    ),
                ),
                call_line(
                    n,
                    ret == LType::Void,
                    type_word(c, ret),
                    "%p"@ + decimal(n),
                    arg_list(c, nm, params, 0, args),
                ),
            ]
        },
    }
}

/// A call that is printed is read back: the callee, and each argument at
/// its place.
pub proof fn call_is_read(t: Seq<char>, o: Seq<char>, c: &EmitContext, nm: Names, n: usize, callee: Callee, args: Args)
    requires
        begins(t, call_text(c, nm, o, n, callee, args)),
        callee matches Callee::Function(k) ==> k < c.declared@.len(),
    ensures
        begins(t, o),
        lines_at(t, o.len() as int, call_lines(c, nm, n as nat, callee, args).len()) == Some(
            (
                call_lines(c, nm, n as nat, callee, args),
                call_text(c, nm, o, n, callee, args).len() as int,
            ),
        ),
{
    reveal_strlit("(");
    match callee {
        Callee::Function(k) => {
            let d = c.declared@[k as int];
            reveal_strlit("@\"");
            reveal_strlit("\"(");
            reveal_strlit("\"");
            let o1 = call_head_text(c, o, n, d.ret);
            let o2 = escaped(o1 + "@\""@, d.name@);
            let o3 = o2 + "\"("@;
            args_are_read(t, o3, c, nm, d.params@, 0, args);
            piece(t, o2, "\"("@);
            let x = escaped(Seq::empty(), d.name@);
            escaped_appends(o1 + "@\""@, d.name@);
            escaped_appends("@\""@, d.name@);
            piece(t, o1 + "@\""@, x);
            piece(t, o1, "@\""@);
            let name = quoted_name(d.name@, Seq::empty());
            begins_with(t, o2.len() as int, "\"("@, "\""@, "("@);
            at_join(t, o1.len() as int, "@\""@, x);
            at_join(t, o1.len() as int, "@\""@ + x, "\""@);
            assert(name =~= "@\""@ + x + "\""@);
            assert(free_of(name, '('));
            let e = call_text(c, nm, o, n, callee, args).len() as int;
            call_head_is_read(t, o, c, n, d.ret, name, arg_list(c, nm, d.params@, 0, args), e);
            one_line(t, o.len() as int, call_lines(c, nm, n as nat, callee, args)[0], e);
            assert(call_lines(c, nm, n as nat, callee, args) =~= seq![
                call_lines(c, nm, n as nat, callee, args)[0],
            ]);
        },
        Callee::Runtime(rt) => {
            reveal_strlit("@");
            let o1 = call_head_text(c, o, n, rt_ret(rt));
            let o2 = o1 + "@"@;
            let o3 = o2 + link_text(rt);
            let o4 = o3 + "("@;
            args_are_read(t, o4, c, nm, rt_sig(rt), 0, args);
            piece(t, o3, "("@);
            piece(t, o2, link_text(rt));
            piece(t, o1, "@"@);
            link_names_are_plain(rt);
            let name = "@"@ + link_text(rt);
            at_join(t, o1.len() as int, "@"@, link_text(rt));
            assert(free_of(name, '('));
            let e = call_text(c, nm, o, n, callee, args).len() as int;
            call_head_is_read(t, o, c, n, rt_ret(rt), name, arg_list(c, nm, rt_sig(rt), 0, args), e);
            one_line(t, o.len() as int, call_lines(c, nm, n as nat, callee, args)[0], e);
            assert(call_lines(c, nm, n as nat, callee, args) =~= seq![
                call_lines(c, nm, n as nat, callee, args)[0],
            ]);
        },
        Callee::Pointer(code, signature) => {
            pointer_call_is_read(t, o, c, nm, n, code, signature, args);
        },
    }
}

proof fn pointer_call_is_read(
    t: Seq<char>,
    o: Seq<char>,
    c: &EmitContext,
    nm: Names,
    n: usize,
    code: Val,
    signature: usize,
    args: Args,
)
    requires
        begins(t, call_text(c, nm, o, n, Callee::Pointer(code, signature), args)),
    ensures
        begins(t, o),
        lines_at(t, o.len() as int, 2) == Some(
            (
                call_lines(c, nm, n as nat, Callee::Pointer(code, signature), args),
                call_text(c, nm, o, n, Callee::Pointer(code, signature), args).len() as int,
            ),
        ),
{
    let callee = Callee::Pointer(code, signature);
    let params = closure_params(c, signature);
    let ret = return_type(c.result_of(signature));
    reveal_strlit("(");
    reveal_strlit("  %p");
    reveal_strlit("%p");
    reveal_strlit(" = bitcast ");
    reveal_strlit(" = ");
    reveal_strlit("bitcast");
    reveal_strlit(" ");
    reveal_strlit(" to ");
    reveal_strlit("*");
    reveal_strlit("*\n");
    reveal_strlit("\n");
    let d = decimal(n as nat);
    let o1 = o + "  %p"@;
    let o2 = o1 + d;
    let o3 = o2 + " = bitcast "@;
    let o4 = type_text(c, o3, LType::Ptr);
    let o5 = o4 + " "@;
    let o6 = value_text(c, nm, o5, code);
    let o7 = o6 + " to "@;
    let o8 = fn_type_text(c, o7, params, ret);
    let o9 = o8 + "*\n"@;
    let h1 = call_head_text(c, o9, n, ret);
    let h2 = h1 + "%p"@;
    let h3 = h2 + d;
    let h4 = h3 + "("@;
    args_are_read(t, h4, c, nm, params, 0, args);
    piece(t, h3, "("@);
    piece(t, h2, d);
    piece(t, h1, "%p"@);
    at_join(t, h1.len() as int, "%p"@, d);
    decimal_is_plain(n as nat);
    assert(free_of("%p"@ + d, '('));
    let e = call_text(c, nm, o, n, callee, args).len() as int;
    call_head_is_read(t, o9, c, n, ret, "%p"@ + d, arg_list(c, nm, params, 0, args), e);
    piece(t, o8, "*\n"@);
    fn_type_spells(c, o7, params, ret);
    let f = fn_type_word(c, params, ret);
    piece(t, o7, f);
    piece(t, o6, " to "@);
    value_spells(c, nm, o5, code);
    piece(t, o5, value_word(c, nm, code));
    piece(t, o4, " "@);
    type_spells(c, o3, LType::Ptr);
    piece(t, o3, type_word(c, LType::Ptr));
    piece(t, o2, " = bitcast "@);
    piece(t, o1, d);
    piece(t, o, "  %p"@);
    begins_with(t, o2.len() as int, " = bitcast "@, " = "@, "bitcast"@ + " "@);
    begins_with(t, o2.len() as int + 3, "bitcast"@ + " "@, "bitcast"@, " "@);
    begins_with(t, o8.len() as int, "*\n"@, "*"@, "\n"@);
    at_join(t, o7.len() as int, f, "*"@);
    assert(free_of(star(f), '\n'));
    rest_is_read(t, o7.len() as int, star(f));
    value_is_told(t, o5.len() as int, c, nm, code, " to "@);
    operand_is_read(t, o3.len() as int, type_word(c, LType::Ptr), said(c, nm, code), o6.len() as int);
    cast_is_told(CastOp::BitCast);
    definition_is_read(t, o.len() as int, "  %p"@, n as nat, "bitcast"@, " "@);
    let lines = call_lines(c, nm, n as nat, callee, args);
    two_lines(t, o.len() as int, lines[0], o9.len() as int, lines[1], e);
    assert(lines =~= seq![lines[0], lines[1]]);
}

/// The values of a phi from an edge on, each with the block that it comes
/// from.
pub open spec fn phi_list(c: &EmitContext, nm: Names, edges: Seq<Edge>, phi: Val, k: nat) -> Seq<(Said, nat)>
    decreases edges.len() - k,
{
    if k >= edges.len() {
        Seq::empty()
    } else if edges[k as int].phi == phi {
        seq![(said(c, nm, edges[k as int].value), edges[k as int].from as nat)] + phi_list(
            c,
            nm,
            edges,
            phi,
            k + 1,
        )
    } else {
        phi_list(c, nm, edges, phi, k + 1)
    }
}

proof fn edges_are_read(
    t: Seq<char>,
    h: Seq<char>,
    c: &EmitContext,
    nm: Names,
    edges: Seq<Edge>,
    phi: Val,
    k: nat,
)
    requires
        k <= edges.len(),
        begins(t, edges_text(c, nm, h, edges, phi, edges.len()) + "\n"@),
        has_edge(edges, phi, edges.len()),
    ensures
        begins(t, edges_text(c, nm, h, edges, phi, k)),
        edges_at(
            t,
            edges_text(c, nm, h, edges, phi, k).len() as int,
            !has_edge(edges, phi, k),
        ) == Some(
            (
                phi_list(c, nm, edges, phi, k),
                (edges_text(c, nm, h, edges, phi, edges.len()) + "\n"@).len() as int,
            ),
        ),
    decreases edges.len() - k,
{
    reveal(edges_at);
    reveal_strlit("\n");
    let o = edges_text(c, nm, h, edges, phi, k);
    let p = o.len() as int;
    if k == edges.len() {
        piece(t, o, "\n"@);
    } else {
        edges_are_read(t, h, c, nm, edges, phi, k + 1);
        let e = edges[k as int];
        if e.phi == phi {
            reveal_strlit(", [ ");
            reveal_strlit(" [ ");
            reveal_strlit(", %");
            reveal_strlit(" ]");
            let w = if has_edge(edges, phi, k) {
                ", [ "@
            } else {
                " [ "@
            };
            let o1 = o + w;
            let o2 = value_text(c, nm, o1, e.value);
            let o3 = o2 + ", %"@;
            let o4 = label_text(o3, nm.labels, e.from as nat);
            let o5 = o4 + " ]"@;
            piece(t, o4, " ]"@);
            label_spells(o3, nm.labels, e.from as nat);
            piece(t, o3, label_word(nm.labels, e.from as nat));
            piece(t, o2, ", %"@);
            value_spells(c, nm, o1, e.value);
            piece(t, o1, value_word(c, nm, e.value));
            piece(t, o, w);
            value_is_told(t, o1.len() as int, c, nm, e.value, ", %"@);
            label_is_read(t, o3.len() as int, nm.labels, e.from as nat);
            at_another(t, p, w, "\n"@);
            at_chars(t, o4.len() as int, " ]"@);
        }
    }
}

/// The line of a phi. One without edges has no value.
pub open spec fn phi_line(c: &EmitContext, nm: Names, n: nat, ty: LType, edges: Seq<Edge>) -> Line {
    let phi = Val::At(n as usize);
    Line::Define(
        'v',
        n,
        if has_edge(edges, phi, edges.len()) {
            What::Phi(type_word(c, ty), phi_list(c, nm, edges, phi, 0))
        } else {
            What::Freeze(type_word(c, ty))
        },
    )
}

/// A phi that is printed is read back: each value with its block.
pub proof fn phi_is_read(t: Seq<char>, o: Seq<char>, c: &EmitContext, nm: Names, n: usize, ty: LType, edges: Seq<Edge>)
    requires
        begins(t, phi_text(c, nm, o, n, ty, edges)),
    ensures
        begins(t, o),
        lines_at(t, o.len() as int, 1) == Some(
            (seq![phi_line(c, nm, n as nat, ty, edges)], phi_text(c, nm, o, n, ty, edges).len() as int),
        ),
{
    reveal_strlit("  %v");
    reveal_strlit(" = ");
    reveal_strlit("phi ");
    reveal_strlit("phi");
    reveal_strlit("freeze ");
    reveal_strlit("freeze");
    reveal_strlit(" ");
    reveal_strlit(" undef\n");
    let d = decimal(n as nat);
    let o1 = o + "  %v"@;
    let o2 = o1 + d;
    let o3 = o2 + " = "@;
    let e = phi_text(c, nm, o, n, ty, edges).len() as int;
    if has_edge(edges, Val::At(n), edges.len()) {
        let o4 = o3 + "phi "@;
        let o5 = type_text(c, o4, ty);
        edges_are_read(t, o5, c, nm, edges, Val::At(n), 0);
        type_spells(c, o4, ty);
        piece(t, o4, type_word(c, ty));
        piece(t, o3, "phi "@);
        piece(t, o2, " = "@);
        piece(t, o1, d);
        piece(t, o, "  %v"@);
        begins_with(t, o3.len() as int, "phi "@, "phi"@, " "@);
        edge_begins(t, o5.len() as int, phi_list(c, nm, edges, Val::At(n), 0), e);
        some_edge(c, nm, edges, Val::At(n), 0, edges.len());
        type_is_told(t, o4.len() as int, type_word(c, ty), " [ "@);
        told_phi();
        definition_is_read(t, o.len() as int, "  %v"@, n as nat, "phi"@, " "@);
    } else {
        let o4 = o3 + "freeze "@;
        let o5 = type_text(c, o4, ty);
        piece(t, o5, " undef\n"@);
        type_spells(c, o4, ty);
        piece(t, o4, type_word(c, ty));
        piece(t, o3, "freeze "@);
        piece(t, o2, " = "@);
        piece(t, o1, d);
        piece(t, o, "  %v"@);
        begins_with(t, o3.len() as int, "freeze "@, "freeze"@, " "@);
        type_is_told(t, o4.len() as int, type_word(c, ty), " undef\n"@);
        told_freeze();
        definition_is_read(t, o.len() as int, "  %v"@, n as nat, "freeze"@, " "@);
    }
    one_line(t, o.len() as int, phi_line(c, nm, n as nat, ty, edges), e);
}

/// A list of edges that is not empty begins with a bracket.
proof fn edge_begins(t: Seq<char>, p: int, list: Seq<(Said, nat)>, e: int)
    requires
        edges_at(t, p, true) == Some((list, e)),
    ensures
        list.len() > 0 ==> at(t, p, " [ "@),
        " [ "@.len() > 0,
        " [ "@[0] == ' ',
{
    reveal(edges_at);
    reveal_strlit(" [ ");
}

proof fn some_edge(c: &EmitContext, nm: Names, edges: Seq<Edge>, phi: Val, k: nat, n: nat)
    requires
        k <= n <= edges.len(),
        has_edge(edges, phi, n),
        !has_edge(edges, phi, k),
    ensures
        phi_list(c, nm, edges, phi, k).len() > 0,
    decreases n - k,
{
    if k < n && edges[k as int].phi != phi {
        assert(!has_edge(edges, phi, k + 1));
        some_edge(c, nm, edges, phi, k + 1, n);
    }
}

/// The arms of a switch: the type, the constant and the block of each.
pub open spec fn arm_list(c: &EmitContext, ty: LType, cases: Cases) -> Seq<(Seq<char>, nat, nat)>
    decreases cases,
{
    match cases {
        Cases::Nil => Seq::empty(),
        Cases::Cons(value, block, rest) => seq![(type_word(c, ty), value as nat, block as nat)] + arm_list(
            c,
            ty,
            *rest,
        ),
    }
}

proof fn arms_are_read(t: Seq<char>, o: Seq<char>, c: &EmitContext, nm: Names, ty: LType, cases: Cases)
    requires
        begins(t, cases_text(c, nm, o, ty, cases) + "  ]\n"@),
    ensures
        begins(t, o),
        arms_at(t, o.len() as int) == Some(
            (arm_list(c, ty, cases), (cases_text(c, nm, o, ty, cases) + "  ]\n"@).len() as int),
        ),
    decreases cases,
{
    reveal(arms_at);
    reveal_strlit("  ]\n");
    let p = o.len() as int;
    match cases {
        Cases::Nil => {
            piece(t, o, "  ]\n"@);
        },
        Cases::Cons(value, block, rest) => {
            reveal_strlit("    ");
            reveal_strlit(" ");
            reveal_strlit(", label %");
            reveal_strlit("\n");
            let o1 = o + "    "@;
            let o2 = type_text(c, o1, ty);
            let o3 = o2 + " "@;
            let o4 = o3 + decimal(value as nat);
            let o5 = o4 + ", label %"@;
            let o6 = label_text(o5, nm.labels, block as nat);
            let o7 = o6 + "\n"@;
            arms_are_read(t, o7, c, nm, ty, *rest);
            piece(t, o6, "\n"@);
            label_spells(o5, nm.labels, block as nat);
            piece(t, o5, label_word(nm.labels, block as nat));
            piece(t, o4, ", label %"@);
            piece(t, o3, decimal(value as nat));
            piece(t, o2, " "@);
            type_spells(c, o1, ty);
            piece(t, o1, type_word(c, ty));
            piece(t, o, "    "@);
            type_is_told(t, o1.len() as int, type_word(c, ty), " "@);
            number_is_told(t, o3.len() as int, value as nat, ", label %"@);
            label_is_read(t, o5.len() as int, nm.labels, block as nat);
            at_chars(t, p, "    "@);
            at_chars(t, o6.len() as int, "\n"@);
            if at(t, p, "  ]\n"@) {
                at_chars(t, p, "  ]\n"@);
                assert("  ]\n"@[2] == t[p + 2]);
                assert("    "@[2] == t[p + 2]);
            }
        },
    }
}

/// A switch that is printed is read back.
pub proof fn switch_is_read(
    t: Seq<char>,
    o: Seq<char>,
    c: &EmitContext,
    nm: Names,
    n: usize,
    ty: LType,
    x: Val,
    d: usize,
    cases: Cases,
)
    requires
        begins(t, control_text(c, nm, o, n, Inst::Switch(ty, x, d, cases))),
    ensures
        begins(t, o),
        lines_at(t, o.len() as int, 1) == Some(
            (
                seq![
                    Line::Switch((type_word(c, ty), said(c, nm, x)), d as nat, arm_list(c, ty, cases)),
                ],
                control_text(c, nm, o, n, Inst::Switch(ty, x, d, cases)).len() as int,
            ),
        ),
{
    reveal(control_text);
    reveal_strlit("  switch ");
    reveal_strlit("  ");
    reveal_strlit("switch");
    reveal_strlit(" ");
    reveal_strlit(", label %");
    reveal_strlit(" [\n");
    let o1 = o + "  switch "@;
    let o2 = type_text(c, o1, ty);
    let o3 = o2 + " "@;
    let o4 = value_text(c, nm, o3, x);
    let o5 = o4 + ", label %"@;
    let o6 = label_text(o5, nm.labels, d as nat);
    let o7 = o6 + " [\n"@;
    arms_are_read(t, o7, c, nm, ty, cases);
    piece(t, o6, " [\n"@);
    label_spells(o5, nm.labels, d as nat);
    piece(t, o5, label_word(nm.labels, d as nat));
    piece(t, o4, ", label %"@);
    value_spells(c, nm, o3, x);
    piece(t, o3, value_word(c, nm, x));
    piece(t, o2, " "@);
    type_spells(c, o1, ty);
    piece(t, o1, type_word(c, ty));
    piece(t, o, "  switch "@);
    begins_with(t, o.len() as int, "  switch "@, "  "@, "switch"@ + " "@);
    begins_with(t, o.len() as int + 2, "switch"@ + " "@, "switch"@, " "@);
    value_is_told(t, o3.len() as int, c, nm, x, ", label %"@);
    operand_is_read(t, o1.len() as int, type_word(c, ty), said(c, nm, x), o4.len() as int);
    label_is_read(t, o5.len() as int, nm.labels, d as nat);
    done_switch();
    doing_is_read(t, o.len() as int, "switch"@, " "@);
    one_line(
        t,
        o.len() as int,
        Line::Switch((type_word(c, ty), said(c, nm, x)), d as nat, arm_list(c, ty, cases)),
        control_text(c, nm, o, n, Inst::Switch(ty, x, d, cases)).len() as int,
    );
}

} // verus!
