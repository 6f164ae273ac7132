//! Operands in text form.

use vstd::prelude::*;

use crate::ctx::EmitContext;
use crate::ir::IRType;
use crate::llvm::{words, LType, Val};
use crate::print::types::{fn_type_text, put_fn_type, put_type, type_text};
use crate::text::{decimal, decimal_is_injective, escaped, hexadecimal, put, put_escaped, put_hex, put_num, put_usize};

verus! {

/// What names in a function's body refer to: the drop shims of the
/// module, the number of the function, its blocks and its string literals.
pub struct Place<'a> {
    pub shims: &'a Vec<IRType>,
    pub function: usize,
    pub labels: &'a Vec<String>,
    pub texts: &'a Vec<Vec<u8>>,
}

/// What names in a function's body refer to, mathematically.
pub struct Names {
    pub shims: Seq<IRType>,
    pub function: usize,
    pub labels: Seq<Seq<char>>,
    pub texts: Seq<Seq<u8>>,
}

/// Some literals as bytes.
pub open spec fn literals(s: Seq<Vec<u8>>) -> Seq<Seq<u8>> {
    Seq::new(s.len(), |i: int| s[i]@)
}

impl<'a> View for Place<'a> {
    type V = Names;

    open spec fn view(&self) -> Names {
        Names {
            shims: self.shims@,
            function: self.function,
            labels: words(self.labels@),
            texts: literals(self.texts@),
        }
    }
}

/// The place of a type among the requested shims, or their number.
pub open spec fn shim_number(shims: Seq<IRType>, ty: IRType, i: nat) -> nat
    decreases shims.len() - i,
{
    if i >= shims.len() || shims[i as int] == ty {
        i
    } else {
        shim_number(shims, ty, i + 1)
    }
}

fn shim_place(shims: &Vec<IRType>, ty: IRType) -> (r: usize)
    ensures
        r == shim_number(shims@, ty, 0),
{
    let mut i: usize = 0;
    while i < shims.len()
        invariant
            i <= shims@.len(),
            shim_number(shims@, ty, 0) == shim_number(shims@, ty, i as nat),
        decreases shims@.len() - i,
    {
        if shims[i] == ty {
            return i;
        }
        i = i + 1;
    }
    i
}

/// The word of a block, or none.
pub open spec fn word_of(labels: Seq<Seq<char>>, b: nat) -> Seq<char> {
    if b < labels.len() {
        labels[b as int]
    } else {
        ""@
    }
}

/// What `o` says, then the label of a block: its word and its number.
pub open spec fn label_text(o: Seq<char>, labels: Seq<Seq<char>>, b: nat) -> Seq<char> {
    escaped(o + "\""@, word_of(labels, b)) + "."@ + decimal(b) + "\""@
}

/// Appends the label of a block.
pub fn put_label(out: &mut String, labels: &Vec<String>, b: usize)
    ensures
        final(out)@ == label_text(old(out)@, words(labels@), b as nat),
{
    put(out, "\"");
    if b < labels.len() {
        put_escaped(out, labels[b].as_str());
    } else {
        put_escaped(out, "");
    }
    put(out, ".");
    put_usize(out, b);
    put(out, "\"");
}

/// Different blocks have different labels.
pub proof fn labels_differ(o: Seq<char>, labels: Seq<Seq<char>>, a: nat, b: nat)
    requires
        label_text(o, labels, a) == label_text(o, labels, b),
    ensures
        a == b,
{
    reveal_strlit(".");
    reveal_strlit("\"");
    let (x, y) = (label_text(o, labels, a), label_text(o, labels, b));
    let (d, e) = (decimal(a), decimal(b));
    let n = x.len() as int;
    assert(x[n - 2 - d.len()] == '.');
    assert(y[n - 2 - e.len()] == '.');
    if d.len() < e.len() {
        no_dot(b, e.len() - 1 - d.len());
        assert(y[n - 2 - d.len()] == e[e.len() - 1 - d.len()]);
    }
    if e.len() < d.len() {
        no_dot(a, d.len() - 1 - e.len());
        assert(x[n - 2 - e.len()] == d[d.len() - 1 - e.len()]);
    }
    assert(d =~= x.subrange(n - 1 - d.len(), n - 1));
    assert(e =~= y.subrange(n - 1 - e.len(), n - 1));
    decimal_is_injective(a, b);
}

/// What `o` says, then the name of a literal of a function.
pub open spec fn literal_name(o: Seq<char>, function: nat, n: nat) -> Seq<char> {
    o + "@txt."@ + decimal(function) + "."@ + decimal(n)
}

/// Appends the name of a literal of a function.
pub fn put_literal_name(out: &mut String, function: usize, n: usize)
    ensures
        final(out)@ == literal_name(old(out)@, function as nat, n as nat),
{
    put(out, "@txt.");
    put_usize(out, function);
    put(out, ".");
    put_usize(out, n);
}

/// What `o` says, then the name of a drop shim.
pub open spec fn shim_name(o: Seq<char>, i: nat) -> Seq<char> {
    o + "@koja_drop."@ + decimal(i)
}

/// Appends the name of a drop shim.
pub fn put_shim_name(out: &mut String, i: usize)
    ensures
        final(out)@ == shim_name(old(out)@, i as nat),
{
    put(out, "@koja_drop.");
    put_usize(out, i);
}

/// Digits hold no dot.
proof fn no_dot(n: nat, i: int)
    requires
        0 <= i < decimal(n).len(),
    ensures
        decimal(n)[i] != '.',
    decreases n,
{
    if n >= 10 && i < decimal(n).len() - 1 {
        no_dot(n / 10, i);
    }
}

/// Different literals have different names.
pub proof fn literal_names_differ(o: Seq<char>, f: nat, n: nat, g: nat, k: nat)
    requires
        literal_name(o, f, n) == literal_name(o, g, k),
    ensures
        f == g,
        n == k,
{
    reveal_strlit(".");
    let at = (o + "@txt."@).len() as int;
    let (x, y) = (literal_name(o, f, n), literal_name(o, g, k));
    let (a, b) = (decimal(f), decimal(g));
    assert(x[at + a.len()] == '.');
    assert(y[at + b.len()] == '.');
    if a.len() < b.len() {
        no_dot(g, a.len() as int);
        assert(y[at + a.len()] == b[a.len() as int]);
    }
    if b.len() < a.len() {
        no_dot(f, b.len() as int);
        assert(x[at + b.len()] == a[b.len() as int]);
    }
    assert(a =~= x.subrange(at, at + a.len()));
    assert(b =~= y.subrange(at, at + b.len()));
    decimal_is_injective(f, g);
    let end = at + a.len() + 1;
    assert(decimal(n) =~= x.subrange(end, x.len() as int));
    assert(decimal(k) =~= y.subrange(end, y.len() as int));
    decimal_is_injective(n, k);
}

/// Different drop shims have different names.
pub proof fn shim_names_differ(o: Seq<char>, i: nat, j: nat)
    requires
        shim_name(o, i) == shim_name(o, j),
    ensures
        i == j,
{
    let at = (o + "@koja_drop."@).len() as int;
    let (x, y) = (shim_name(o, i), shim_name(o, j));
    assert(decimal(i) =~= x.subrange(at, x.len() as int));
    assert(decimal(j) =~= y.subrange(at, y.len() as int));
    decimal_is_injective(i, j);
}

/// No literal has the name of a drop shim.
pub proof fn literals_are_no_shims(o: Seq<char>, f: nat, n: nat, i: nat)
    ensures
        literal_name(o, f, n) != shim_name(o, i),
{
    reveal_strlit("@txt.");
    reveal_strlit("@koja_drop.");
    let (x, y) = (literal_name(o, f, n), shim_name(o, i));
    assert(x[o.len() as int + 1] == 't');
    assert(y[o.len() as int + 1] == 'k');
}

/// Every drop shim that is asked for has a number of its own.
pub proof fn shim_numbers_differ(shims: Seq<IRType>, a: IRType, b: IRType)
    requires
        shims.contains(a),
        shims.contains(b),
        shim_number(shims, a, 0) == shim_number(shims, b, 0),
    ensures
        a == b,
{
    shim_number_finds(shims, a, 0);
    shim_number_finds(shims, b, 0);
}

/// The number of a requested shim is its place.
proof fn shim_number_finds(shims: Seq<IRType>, ty: IRType, i: nat)
    requires
        exists|k: int| i <= k < shims.len() && shims[k] == ty,
    ensures
        shim_number(shims, ty, i) < shims.len(),
        shims[shim_number(shims, ty, i) as int] == ty,
    decreases shims.len() - i,
{
    if shims[i as int] != ty {
        shim_number_finds(shims, ty, i + 1);
    }
}

/// What `o` says, then the type of a literal block.
pub open spec fn literal_type_text(o: Seq<char>, bytes: Seq<u8>) -> Seq<char> {
    let o = o + "{ i64, i64, ["@;
    let o = o + decimal(bytes.len());
    let o = o + " x i8], i8 }"@;
    o
}

/// Appends the type of a literal block.
pub fn put_literal_type(out: &mut String, bytes: &Vec<u8>)
    ensures
        final(out)@ == literal_type_text(old(out)@, bytes@),
{
    put(out, "{ i64, i64, [");
    put_usize(out, bytes.len());
    put(out, " x i8], i8 }");
}

/// What `o` says, then the address of a declared function.
pub open spec fn function_text(c: &EmitContext, o: Seq<char>, k: usize) -> Seq<char> {
    let o = o + "bitcast ("@;
    let o = fn_type_text(c, o, c.declared@[k as int].params@, c.declared@[k as int].ret);
    let o = o + "* @\""@;
    let o = escaped(o, c.declared@[k as int].name@);
    let o = o + "\" to i8*)"@;
    o
}

/// Appends the address of a declared function.
fn put_function(c: &EmitContext, out: &mut String, k: usize)
    requires
        k < c.declared@.len(),
    ensures
        final(out)@ == function_text(c, old(out)@, k),
{
    put(out, "bitcast (");
    put_fn_type(c, out, &c.declared[k].params, c.declared[k].ret);
    put(out, "* @\"");
    put_escaped(out, c.declared[k].name.as_str());
    put(out, "\" to i8*)");
}

/// What `o` says, then the address of a literal's payload.
pub open spec fn payload_text(nm: Names, o: Seq<char>, n: usize) -> Seq<char> {
    let o = o + "getelementptr (i8, i8* bitcast ("@;
    let o = literal_type_text(o, nm.texts[n as int]);
    let o = literal_name(o + "* "@, nm.function as nat, n as nat);
    let o = o + " to i8*), i64 16)"@;
    o
}

/// Appends the address of a literal's payload.
fn put_payload(pl: &Place<'_>, out: &mut String, n: usize)
    requires
        n < pl.texts@.len(),
    ensures
        final(out)@ == payload_text(pl@, old(out)@, n),
{
    put(out, "getelementptr (i8, i8* bitcast (");
    put_literal_type(out, &pl.texts[n]);
    put(out, "* ");
    put_literal_name(out, pl.function, n);
    put(out, " to i8*), i64 16)");
}

/// What `o` says, then an operand without its type.
pub open spec fn value_text(c: &EmitContext, nm: Names, o: Seq<char>, val: Val) -> Seq<char> {
    match val {
        Val::Param(n) => {
            let o = o + "%a"@;
            let o = o + decimal(n as nat);
            o
        },
        Val::At(n) => {
            let o = o + "%v"@;
            let o = o + decimal(n as nat);
            o
        },
        Val::Slot(n) => {
            let o = o + "%s"@;
            let o = o + decimal(n as nat);
            o
        },
        Val::Int(n) => {
            let o = o + decimal(n as nat);
            o
        },
        Val::Float(bits) => {
            let o = o + "0x"@;
            let o = hexadecimal(o, bits, 16);
            o
        },
        Val::Null => {
            let o = o + "null"@;
            o
        },
        Val::Undef => {
            let o = o + "undef"@;
            o
        },
        Val::Zero => {
            let o = o + "zeroinitializer"@;
            o
        },
        Val::Words(x, y, z) => {
            let o = o + "[i64 "@;
            let o = o + decimal(x as nat);
            let o = o + ", i64 "@;
            let o = o + decimal(y as nat);
            let o = o + ", i64 "@;
            let o = o + decimal(z as nat);
            let o = o + "]"@;
            o
        },
        Val::SizeOf(t) => {
            let o = o + "ptrtoint ("@;
            let o = type_text(c, o, t);
            let o = o + "* getelementptr ("@;
            let o = type_text(c, o, t);
            let o = o + ", "@;
            let o = type_text(c, o, t);
            let o = o + "* null, i32 1) to i64)"@;
            o
        },
        Val::Text(n) => {
            let o = if n < nm.texts.len() {
                payload_text(nm, o, n)
            } else {
                o + "undef"@
            };
            o
        },
        Val::Function(k) => {
            let o = if k < c.declared@.len() {
                function_text(c, o, k)
            } else {
                o + "undef"@
            };
            o
        },
        Val::Shim(ty) => {
            let o = o + "bitcast (void (i8*)* "@;
            let o = shim_name(o, shim_number(nm.shims, ty, 0));
            let o = o + " to i8*)"@;
            o
        },
        Val::StaticEnv(body) => {
            let o = o + "bitcast ({ i64, i8*, i8*, i64, i8* }* @\""@;
            let o = escaped(o, c.mangled(body));
            let o = o + ".$env$\" to i8*)"@;
            o
        },
        Val::ExitCode => {
            let o = o + "bitcast (i32* @__koja_exit_code to i8*)"@;
            o
        },
    }
}

/// Appends an operand without its type.
pub fn put_value(c: &EmitContext, pl: &Place<'_>, out: &mut String, val: Val)
    ensures
        final(out)@ == value_text(c, pl@, old(out)@, val),
{
    match val {
        Val::Param(n) => {
            put(out, "%a");
            put_usize(out, n);
        },
        Val::At(n) => {
            put(out, "%v");
            put_usize(out, n);
        },
        Val::Slot(n) => {
            put(out, "%s");
            put_usize(out, n);
        },
        Val::Int(n) => {
            put_num(out, n);
        },
        Val::Float(bits) => {
            put(out, "0x");
            put_hex(out, bits, 16);
        },
        Val::Null => {
            put(out, "null");
        },
        Val::Undef => {
            put(out, "undef");
        },
        Val::Zero => {
            put(out, "zeroinitializer");
        },
        Val::Words(x, y, z) => {
            put(out, "[i64 ");
            put_num(out, x);
            put(out, ", i64 ");
            put_num(out, y);
            put(out, ", i64 ");
            put_num(out, z);
            put(out, "]");
        },
        Val::SizeOf(t) => {
            put(out, "ptrtoint (");
            put_type(c, out, t);
            put(out, "* getelementptr (");
            put_type(c, out, t);
            put(out, ", ");
            put_type(c, out, t);
            put(out, "* null, i32 1) to i64)");
        },
        Val::Text(n) => {
            if n < pl.texts.len() {
                put_payload(pl, out, n);
            } else {
                put(out, "undef");
            };
        },
        Val::Function(k) => {
            if k < c.declared.len() {
                put_function(c, out, k);
            } else {
                put(out, "undef");
            };
        },
        Val::Shim(ty) => {
            put(out, "bitcast (void (i8*)* ");
            put_shim_name(out, shim_place(pl.shims, ty));
            put(out, " to i8*)");
        },
        Val::StaticEnv(body) => {
            put(out, "bitcast ({ i64, i8*, i8*, i64, i8* }* @\"");
            put_escaped(out, c.name_of(body));
            put(out, ".$env$\" to i8*)");
        },
        Val::ExitCode => {
            put(out, "bitcast (i32* @__koja_exit_code to i8*)");
        },
    }
}

/// What `o` says, then an operand behind its type.
pub open spec fn operand_text(c: &EmitContext, nm: Names, o: Seq<char>, ty: LType, val: Val) -> Seq<char> {
    let o = type_text(c, o, ty);
    let o = o + " "@;
    let o = value_text(c, nm, o, val);
    o
}

/// Appends an operand behind its type.
pub fn put_operand(c: &EmitContext, pl: &Place<'_>, out: &mut String, ty: LType, val: Val)
    ensures
        final(out)@ == operand_text(c, pl@, old(out)@, ty, val),
{
    put_type(c, out, ty);
    put(out, " ");
    put_value(c, pl, out, val);
}

} // verus!
