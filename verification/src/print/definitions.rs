//! The text of type definitions and literals says what they are.

use vstd::prelude::*;
use crate::ctx::EmitContext;
use crate::emit::heap_layout::RC_IMMORTAL;
use crate::layout::structs::struct_body;
use crate::llvm::LType;
use crate::print::functions::literals_text;
use crate::ir::{IREnumVariant, IRSymbol};
use crate::print::module::{envs_text, lowered, structs_text, tuples_text, variants_text};
use crate::print::read_back::{
    at_chars, at_split, begins, braces_go, decimal_is_plain, escapes_append, escapes_run, free_of, goes_through, hex_is_one,
    literal_name_is_plain, ordinary_goes, piece, spells_type, through_joins, type_spells, type_word, word_is_read,
};
use crate::print::read_lines::{at_another, begins_with, number_is_told, type_begins, type_is_told};
use crate::print::reading::{at, ends_type, escapes_end, hex_value, number_at, type_at, word_at};
use crate::print::types::{type_text, types_list_text};
use crate::print::values::{literal_name, literal_type_text};
use crate::text::{decimal, escaped_bytes, hex_digit};
use crate::ctx::last_struct;

verus! {

/// Types separated by commas, up to the closing brace.
#[verifier::opaque]
pub open spec fn fields_at(t: Seq<char>, p: int, first: bool) -> Option<(Seq<Seq<char>>, int)>
    decreases t.len() - p,
{
    if at(t, p, " }\n"@) {
        Some((Seq::empty(), p + 3))
    } else {
        let (ty, e) = type_at(
            t,
            if first {
                p
            } else {
                p + 2
            },
        );
        if (first || at(t, p, ", "@)) && 0 <= p < e <= t.len() {
            match fields_at(t, e, false) {
                Some((rest, end)) => Some((seq![ty] + rest, end)),
                None => None,
            }
        } else {
            None
        }
    }
}

/// A type definition: the name, and the types of the fields.
pub open spec fn definition_at(t: Seq<char>, p: int) -> Option<(Seq<char>, Seq<Seq<char>>, int)> {
    let (name, q) = type_at(t, p);
    match fields_at(t, q + 10, true) {
        Some((fields, e)) => if at(t, q, " = type { "@) {
            Some((name, fields, e))
        } else {
            None
        },
        None => None,
    }
}

/// The words of the types from the `k`-th on.
pub open spec fn words_from(c: &EmitContext, types: Seq<LType>, k: nat) -> Seq<Seq<char>>
    decreases types.len() - k,
{
    if k >= types.len() {
        Seq::empty()
    } else {
        seq![type_word(c, types[k as int])] + words_from(c, types, k + 1)
    }
}

proof fn fields_are_read(t: Seq<char>, o: Seq<char>, c: &EmitContext, types: Seq<LType>, k: nat)
    requires
        k <= types.len(),
        begins(t, types_list_text(c, o, types, types.len()) + " }\n"@),
    ensures
        begins(t, types_list_text(c, o, types, k)),
        fields_at(t, types_list_text(c, o, types, k).len() as int, k == 0) == Some(
            (
                words_from(c, types, k),
                (types_list_text(c, o, types, types.len()) + " }\n"@).len() as int,
            ),
        ),
        types_list_text(c, o, types, k).len() < t.len(),
        k > 0 ==> ends_type(t[types_list_text(c, o, types, k).len() as int]),
    decreases types.len() - k,
{
    reveal(fields_at);
    reveal_strlit(" }\n");
    reveal_strlit(", ");
    let o0 = types_list_text(c, o, types, k);
    let p = o0.len() as int;
    if k == types.len() {
        piece(t, o0, " }\n"@);
        at_chars(t, p, " }\n"@);
        assert(" }\n"@[0] == t[p + 0]);
    } else {
        fields_are_read(t, o, c, types, k + 1);
        let ty = types[k as int];
        let w = type_word(c, ty);
        let o1 = if k > 0 {
            o0 + ", "@
        } else {
            o0
        };
        let o2 = type_text(c, o1, ty);
        assert(o2 == types_list_text(c, o, types, k + 1));
        type_spells(c, o1, ty);
        piece(t, o1, w);
        let next = seq![t[o2.len() as int]];
        assert(at(t, o2.len() as int, next)) by {
            reveal(at);
            assert(t.subrange(o2.len() as int, o2.len() as int + 1) =~= next);
        }
        type_is_told(t, o1.len() as int, w, next);
        type_begins(c, ty);
        at_chars(t, o1.len() as int, w);
        if k > 0 {
            piece(t, o0, ", "@);
            at_chars(t, p, ", "@);
            assert(", "@[0] == t[p + 0]);
            at_another(t, p, ", "@, " }\n"@);
        } else {
            type_begins_plainly(c, ty);
            at_another(t, p, w, " }\n"@);
        }
    }
}

/// No type begins with a blank.
proof fn type_begins_plainly(c: &EmitContext, ty: LType)
    ensures
        type_word(c, ty).len() > 0,
        type_word(c, ty)[0] != ' ',
{
    let w = type_word(c, ty);
    let none: Seq<char> = Seq::empty();
    type_spells(c, none, ty);
    type_begins(c, ty);
    if w[0] == ' ' {
        reveal(spells_type);
        let t = w + seq![' '];
        assert(at(t, 0, w)) by {
            reveal(at);
            assert(t.subrange(0, w.len() as int) =~= w);
        }
        assert(crate::print::reading::type_end(t, 0, 0, false) == crate::print::reading::type_end(
            t,
            w.len() as int,
            0,
            false,
        ));
        assert(t[0] == ' ');
    }
}

proof fn definition_is_told(t: Seq<char>, o: Seq<char>, c: &EmitContext, name: LType, types: Seq<LType>)
    requires
        begins(
            t,
            types_list_text(c, type_text(c, o, name) + " = type { "@, types, types.len()) + " }\n"@,
        ),
    ensures
        begins(t, o),
        definition_at(t, o.len() as int) == Some(
            (
                type_word(c, name),
                words_from(c, types, 0),
                (types_list_text(c, type_text(c, o, name) + " = type { "@, types, types.len())
                    + " }\n"@).len() as int,
            ),
        ),
{
    reveal_strlit(" = type { ");
    let o1 = type_text(c, o, name);
    let o2 = o1 + " = type { "@;
    fields_are_read(t, o2, c, types, 0);
    piece(t, o1, " = type { "@);
    type_spells(c, o, name);
    piece(t, o, type_word(c, name));
    type_is_told(t, o.len() as int, type_word(c, name), " = type { "@);
}

/// The definition of a tuple type lists its elements in their order.
pub proof fn tuple_types_are_read_back(t: Seq<char>, o: Seq<char>, c: &EmitContext, n: nat)
    requires
        n < c.tuples@.len() <= usize::MAX,
        begins(t, tuples_text(c, o, n + 1)),
    ensures
        ({
            let p = tuples_text(c, o, n).len() as int;
            definition_at(t, p) matches Some((name, fields, _)) && name == type_word(c, LType::Tuple(n as usize))
                && fields == words_from(c, lowered(c.tuples@[n as int]@), 0)
        }),
{
    definition_is_told(
        t,
        tuples_text(c, o, n),
        c,
        LType::Tuple(n as usize),
        lowered(c.tuples@[n as int]@),
    );
}

/// The definition of an environment type lists the count, the drop and
/// copy functions, the site and the equality, and then the captures in
/// their order.
pub proof fn env_types_are_read_back(t: Seq<char>, o: Seq<char>, c: &EmitContext, n: nat)
    requires
        n < c.envs@.len() <= usize::MAX,
        begins(t, envs_text(c, o, n + 1)),
    ensures
        ({
            let p = envs_text(c, o, n).len() as int;
            let header = seq![LType::I64, LType::Ptr, LType::Ptr, LType::I64, LType::Ptr];
            definition_at(t, p) matches Some((name, fields, _)) && name == type_word(c, LType::Env(n as usize))
                && fields == words_from(c, header + lowered(c.envs@[n as int]@), 0)
        }),
{
    let header = seq![LType::I64, LType::Ptr, LType::Ptr, LType::I64, LType::Ptr];
    definition_is_told(
        t,
        envs_text(c, o, n),
        c,
        LType::Env(n as usize),
        header + lowered(c.envs@[n as int]@),
    );
}

/// The definition of a struct type lists its fields in their order.
pub proof fn struct_types_are_read_back(t: Seq<char>, o: Seq<char>, c: &EmitContext, n: nat)
    requires
        n < c.structs@.len(),
        last_struct(c.structs@, c.structs@[n as int].symbol, c.structs@.len()) == Some(n as int),
        begins(t, structs_text(c, o, n + 1)),
    ensures
        ({
            let p = structs_text(c, o, n).len() as int;
            let decl = c.structs@[n as int];
            definition_at(t, p) matches Some((name, fields, _)) && name == type_word(
                c,
                LType::Struct(decl.symbol),
            ) && fields == words_from(
                c,
                Seq::new(
                    decl.fields@.len(),
                    |i: int| crate::types::value_type(decl.fields@[i].ir_type),
                ),
                0,
            )
        }),
{
    let decl = c.structs@[n as int];
    let types = struct_body(decl);
    assert(types =~= Seq::new(
        decl.fields@.len(),
        |i: int| crate::types::value_type(decl.fields@[i].ir_type),
    ));
    definition_is_told(t, structs_text(c, o, n), c, LType::Struct(decl.symbol), types);
}

/// The byte that an escape stands for.
pub open spec fn escaped_byte(t: Seq<char>, p: int) -> nat {
    16 * hex_value(t[p + 1]) + hex_value(t[p + 2])
}

/// A literal as it is read: its name, its count of owners, its length in
/// bits, and where its bytes begin and end.
pub open spec fn literal_at(t: Seq<char>, p: int) -> Option<(Seq<char>, nat, nat, int, int)> {
    let name = word_at(t, p);
    let q = p + name.len();
    let (ty, r) = type_at(t, q + 20);
    match number_at(t, r + 7) {
        Some((owners, a)) => match number_at(t, a + 15) {
            Some((n, b)) => match number_at(t, b + 6) {
                Some((eight, d)) => match number_at(t, d + 4) {
                    Some((m, e)) => {
                        let z = escapes_end(t, e + 9);
                        if at(t, q, " = private constant "@) && at(t, r, " { i64 "@) && at(
                            t,
                            a,
                            ", i64 mul (i64 "@,
                        ) && at(t, b, ", i64 "@) && at(t, d, "), ["@) && at(t, e, " x i8] c\""@) && at(
                            t,
                            z,
                            "\", i8 0 }\n"@,
                        ) && z == e + 9 + 3 * m {
                            Some((name, owners, n * eight, e + 9, z))
                        } else {
                            None
                        }
                    },
                    None => None,
                },
                None => None,
            },
            None => None,
        },
        None => None,
    }
}

proof fn escapes_are_bytes(t: Seq<char>, p: int, bytes: Seq<u8>, k: nat)
    requires
        k <= bytes.len(),
        at(t, p, escaped_bytes(Seq::empty(), bytes, k)),
    ensures
        forall|i: int| 0 <= i < k ==> escaped_byte(t, p + 3 * i) == #[trigger] bytes[i],
    decreases k,
{
    if k > 0 {
        let none: Seq<char> = Seq::empty();
        let b = bytes[k - 1];
        let w = escaped_bytes(none, bytes, (k - 1) as nat);
        reveal_strlit("\\");
        hex_is_one(b / 16);
        hex_is_one(b % 16);
        escapes_append(none, bytes, (k - 1) as nat);
        let x = "\\"@;
        let y = hex_digit(b / 16);
        let z = hex_digit(b % 16);
        at_split(t, p, w + x + y, z);
        at_split(t, p, w + x, y);
        at_split(t, p, w, x);
        at_chars(t, p + 3 * (k - 1) + 1, y);
        at_chars(t, p + 3 * (k - 1) + 2, z);
        assert(y[0] == t[p + 3 * (k - 1) + 1 + 0]);
        assert(z[0] == t[p + 3 * (k - 1) + 2 + 0]);
        assert(escaped_byte(t, p + 3 * (k - 1)) == b);
        escapes_are_bytes(t, p, bytes, (k - 1) as nat);
    }
}

proof fn literal_type_spells(bytes: Seq<u8>)
    ensures
        spells_type(literal_type_text(Seq::empty(), bytes)),
{
    reveal(spells_type);
    reveal_strlit("{ i64, i64, [");
    reveal_strlit(" x i8], i8 }");
    let none: Seq<char> = Seq::empty();
    let d = decimal(bytes.len());
    decimal_is_plain(bytes.len());
    let front = seq![' ', 'i', '6', '4', ',', ' ', 'i', '6', '4', ',', ' '];
    let mid = seq![' ', 'x', ' ', 'i', '8'];
    let back = seq![',', ' ', 'i', '8', ' '];
    ordinary_goes(front, 1);
    ordinary_goes(mid, 1);
    ordinary_goes(back, 1);
    assert(goes_through(d, 1));
    through_joins(d, mid, 1);
    braces_go(seq!['['], d + mid, seq![']']);
    let array = seq!['['] + (d + mid) + seq![']'];
    assert(goes_through(array, 1));
    through_joins(front, array, 1);
    through_joins(front + array, back, 1);
    braces_go(seq!['{'], front + array + back, seq!['}']);
    let w = literal_type_text(none, bytes);
    assert(w =~= seq!['{'] + (front + array + back) + seq!['}']);
    assert(free_of(array, '@') && free_of(array, '\n'));
    assert(free_of(w, '@') && free_of(w, '\n'));
}

/// A literal that is printed is read back: under its name, with a count of
/// owners that never runs out, its length in bits, and its bytes.
pub proof fn literal_is_read_back(t: Seq<char>, o: Seq<char>, function: nat, texts: Seq<Seq<u8>>, n: nat)
    requires
        n < texts.len(),
        begins(t, literals_text(o, function, texts, n + 1)),
    ensures
        ({
            let p = literals_text(o, function, texts, n).len() as int;
            let bytes = texts[n as int];
            literal_at(t, p) matches Some((name, owners, bits, from, to)) && name == literal_name(
                Seq::empty(),
                function,
                n,
            ) && owners == RC_IMMORTAL && bits == 8 * bytes.len() && to == from + 3 * bytes.len() && forall|
                i: int,
            |
                0 <= i < bytes.len() ==> escaped_byte(t, from + 3 * i) == #[trigger] bytes[i]
        }),
{
    let none: Seq<char> = Seq::empty();
    let bytes = texts[n as int];
    let size = decimal(bytes.len());
    let rc = decimal(RC_IMMORTAL as nat);
    let name = literal_name(none, function, n);
    let lt = literal_type_text(none, bytes);
    reveal_strlit(" = private constant ");
    reveal_strlit(" { i64 ");
    reveal_strlit(", i64 mul (i64 ");
    reveal_strlit(", i64 8), [");
    reveal_strlit(", i64 ");
    reveal_strlit("), [");
    reveal_strlit(" x i8] c\"");
    reveal_strlit("\", i8 0 }\n");
    let o0 = literals_text(o, function, texts, n);
    let o1 = literal_name(o0, function, n);
    let o2 = o1 + " = private constant "@;
    let o3 = literal_type_text(o2, bytes);
    let o4 = o3 + " { i64 "@;
    let o5 = o4 + rc;
    let o6 = o5 + ", i64 mul (i64 "@;
    let o7 = o6 + size;
    let o8 = o7 + ", i64 8), ["@;
    let o9 = o8 + size;
    let q0 = o9 + " x i8] c\""@;
    let q1 = escaped_bytes(q0, bytes, bytes.len());
    piece(t, q1, "\", i8 0 }\n"@);
    escapes_append(q0, bytes, bytes.len());
    let w = escaped_bytes(none, bytes, bytes.len());
    piece(t, q0, w);
    piece(t, o9, " x i8] c\""@);
    piece(t, o8, size);
    piece(t, o7, ", i64 8), ["@);
    piece(t, o6, size);
    piece(t, o5, ", i64 mul (i64 "@);
    piece(t, o4, rc);
    piece(t, o3, " { i64 "@);
    assert(o3 =~= o2 + lt);
    piece(t, o2, lt);
    piece(t, o1, " = private constant "@);
    assert(o1 =~= o0 + name);
    piece(t, o0, name);
    literal_name_is_plain(function, n);
    at_chars(t, o1.len() as int, " = private constant "@);
    assert(" = private constant "@[0] == t[o1.len() as int + 0]);
    word_is_read(t, o0.len() as int, name);
    literal_type_spells(bytes);
    type_is_told(t, o2.len() as int, lt, " { i64 "@);
    number_is_told(t, o4.len() as int, RC_IMMORTAL as nat, ", i64 mul (i64 "@);
    assert(decimal(8) =~= seq!['8']);
    begins_with(t, o7.len() as int, ", i64 8), ["@, ", i64 "@, decimal(8) + "), ["@);
    begins_with(t, o7.len() as int + 6, decimal(8) + "), ["@, decimal(8), "), ["@);
    number_is_told(t, o6.len() as int, bytes.len(), ", i64 "@);
    number_is_told(t, o7.len() as int + 6, 8, "), ["@);
    number_is_told(t, o8.len() as int, bytes.len(), " x i8] c\""@);
    at_chars(t, q0.len() as int, w);
    at_chars(t, q1.len() as int, "\", i8 0 }\n"@);
    assert("\", i8 0 }\n"@[0] == t[q1.len() as int + 0]);
    assert forall|j: int| 0 <= j < bytes.len() implies #[trigger] t[q0.len() as int + 3 * j] == '\\' by {
        assert(w[3 * j] == t[q0.len() as int + 3 * j]);
    }
    escapes_run(t, q0.len() as int, bytes.len() as int);
    escapes_are_bytes(t, q0.len() as int, bytes, bytes.len());
    assert(bytes.len() * 8 == 8 * bytes.len());
}

proof fn one_more_field(
    t: Seq<char>,
    p: int,
    first: bool,
    ty: Seq<char>,
    e: int,
    rest: Seq<Seq<char>>,
    end: int,
)
    requires
        !at(t, p, " }\n"@),
        first || at(t, p, ", "@),
        type_at(
            t,
            if first {
                p
            } else {
                p + 2
            },
        ) == (ty, e),
        0 <= p < e <= t.len(),
        fields_at(t, e, false) == Some((rest, end)),
    ensures
        fields_at(t, p, first) == Some((seq![ty] + rest, end)),
{
    reveal(fields_at);
}

/// The types of a variant are a struct of what it carries, in its order,
/// and a struct of the tag byte, the padding and that struct.
pub proof fn variant_types_are_read_back(
    t: Seq<char>,
    o: Seq<char>,
    c: &EmitContext,
    symbol: IRSymbol,
    variants: Seq<IREnumVariant>,
    k: nat,
)
    requires
        0 < k <= variants.len(),
        begins(t, variants_text(c, o, symbol, variants, k)),
    ensures
        ({
            let tag = variants[k - 1].tag.0;
            let p = variants_text(c, o, symbol, variants, (k - 1) as nat).len() as int;
            definition_at(t, p) matches Some((name, fields, q)) && name == type_word(
                c,
                LType::Payload(symbol, tag),
            ) && fields == words_from(c, lowered(c.payload(symbol, tag)), 0) && (definition_at(t, q) matches Some(
                (whole, parts, _),
            ) && whole == type_word(c, LType::Variant(symbol, tag)) && parts == seq![
                "i8"@,
                "[0 x i8]"@,
                type_word(c, LType::Payload(symbol, tag)),
            ])
        }),
{
    let tag = variants[k - 1].tag.0;
    let slots = lowered(c.payload(symbol, tag));
    let payload = LType::Payload(symbol, tag);
    let variant = LType::Variant(symbol, tag);
    let w = type_word(c, payload);
    reveal_strlit(" = type { i8, [0 x i8], ");
    reveal_strlit(" = type { ");
    reveal_strlit("i8");
    reveal_strlit(", ");
    reveal_strlit("[0 x i8]");
    reveal_strlit(" }\n");
    let o0 = variants_text(c, o, symbol, variants, (k - 1) as nat);
    let o1 = types_list_text(c, type_text(c, o0, payload) + " = type { "@, slots, slots.len()) + " }\n"@;
    let o2 = type_text(c, o1, variant);
    let o3 = o2 + " = type { i8, [0 x i8], "@;
    let o4 = type_text(c, o3, payload);
    piece(t, o4, " }\n"@);
    type_spells(c, o3, payload);
    piece(t, o3, w);
    piece(t, o2, " = type { i8, [0 x i8], "@);
    type_spells(c, o1, variant);
    piece(t, o1, type_word(c, variant));
    definition_is_told(t, o0, c, payload, slots);
    let p = o2.len() as int;
    begins_with(
        t,
        p,
        " = type { i8, [0 x i8], "@,
        " = type { "@,
        "i8"@ + ", "@ + "[0 x i8]"@ + ", "@,
    );
    at_split(t, p + 10, "i8"@ + ", "@ + "[0 x i8]"@, ", "@);
    at_split(t, p + 10, "i8"@ + ", "@, "[0 x i8]"@);
    at_split(t, p + 10, "i8"@, ", "@);
    let inner = seq!['0', ' ', 'x', ' ', 'i', '8'];
    ordinary_goes("i8"@, 0);
    ordinary_goes(inner, 1);
    braces_go(seq!['['], inner, seq![']']);
    assert("[0 x i8]"@ =~= seq!['['] + inner + seq![']']);
    assert(spells_type("i8"@) && spells_type("[0 x i8]"@)) by {
        reveal(spells_type);
    }
    type_is_told(t, o1.len() as int, type_word(c, variant), " = type { "@);
    type_is_told(t, p + 10, "i8"@, ", "@);
    type_is_told(t, p + 14, "[0 x i8]"@, ", "@);
    type_is_told(t, o3.len() as int, w, " }\n"@);
    at_another(t, p + 10, "i8"@, " }\n"@);
    at_another(t, p + 12, ", "@, " }\n"@);
    at_another(t, p + 22, ", "@, " }\n"@);
    at_chars(t, o4.len() as int, " }\n"@);
    type_begins(c, payload);
    let none: Seq<Seq<char>> = Seq::empty();
    assert(fields_at(t, o4.len() as int, false) == Some((none, o4.len() as int + 3))) by {
        reveal(fields_at);
    }
    one_more_field(t, p + 22, false, w, o4.len() as int, none, o4.len() as int + 3);
    one_more_field(t, p + 12, false, "[0 x i8]"@, p + 22, seq![w] + none, o4.len() as int + 3);
    one_more_field(
        t,
        p + 10,
        true,
        "i8"@,
        p + 12,
        seq!["[0 x i8]"@] + (seq![w] + none),
        o4.len() as int + 3,
    );
    assert(seq!["i8"@] + (seq!["[0 x i8]"@] + (seq![w] + none)) =~= seq!["i8"@, "[0 x i8]"@, w]);
}

} // verus!
