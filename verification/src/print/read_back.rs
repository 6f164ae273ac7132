//! What is printed is read back.

use vstd::prelude::*;
use vstd::utf8::encode_utf8;
use crate::ctx::EmitContext;
use crate::llvm::{LType, Val};
use crate::print::reading::{
    at, digits_end, ends_type, escapes_end, hex_in, hex_value, is_digit, label_at, number_at, number_in, type_at, type_end, until,
    value_at, word_end, Said,
};
use crate::print::types::{flat_type_text, fn_type_text, type_text, types_list_text};
use crate::print::values::{
    label_text, literal_name, literal_type_text, shim_name, shim_number, value_text, word_of, Names,
};
use crate::text::{decimal, digit, escaped, escaped_bytes, hex_digit, hexadecimal};
use crate::types::value_type;

verus! {

/// A text begins with another.
#[verifier::opaque]
pub open spec fn begins(t: Seq<char>, o: Seq<char>) -> bool {
    o.is_prefix_of(t)
}

/// What a text begins with, its beginning begins with.
pub proof fn piece(t: Seq<char>, o: Seq<char>, w: Seq<char>)
    requires
        begins(t, o + w),
    ensures
        begins(t, o),
        at(t, o.len() as int, w),
{
    reveal(begins);
    reveal(at);
    let n = (o + w).len() as int;
    assert(o + w =~= t.subrange(0, n));
    assert(o =~= t.subrange(0, o.len() as int)) by {
        assert forall|i: int| 0 <= i < o.len() implies o[i] == t[i] by {
            assert((o + w)[i] == t.subrange(0, n)[i]);
        }
    }
    assert(w =~= t.subrange(o.len() as int, n)) by {
        assert forall|i: int| 0 <= i < w.len() implies w[i] == t[o.len() + i] by {
            assert((o + w)[o.len() + i] == t.subrange(0, n)[o.len() + i]);
        }
    }
}

/// The characters of a word that a text has.
pub proof fn at_chars(t: Seq<char>, p: int, w: Seq<char>)
    requires
        at(t, p, w),
    ensures
        0 <= p,
        p + w.len() <= t.len(),
        t.subrange(p, p + w.len()) == w,
        forall|i: int| 0 <= i < w.len() ==> #[trigger] w[i] == t[p + i],
{
    reveal(at);
    assert forall|i: int| 0 <= i < w.len() implies #[trigger] w[i] == t[p + i] by {
        assert(t.subrange(p, p + w.len())[i] == t[p + i]);
    }
}

/// A word of two parts.
pub proof fn at_split(t: Seq<char>, p: int, a: Seq<char>, b: Seq<char>)
    requires
        at(t, p, a + b),
    ensures
        at(t, p, a),
        at(t, p + a.len(), b),
{
    reveal(at);
    at_chars(t, p, a + b);
    assert(t.subrange(p, p + a.len()) =~= a) by {
        assert forall|i: int| 0 <= i < a.len() implies t[p + i] == a[i] by {
            assert((a + b)[i] == a[i]);
        }
    }
    assert(t.subrange(p + a.len(), p + a.len() + b.len()) =~= b) by {
        assert forall|i: int| 0 <= i < b.len() implies t[p + a.len() + i] == b[i] by {
            assert((a + b)[a.len() + i] == b[i]);
        }
    }
}

/// Two words one behind the other.
pub proof fn at_join(t: Seq<char>, p: int, a: Seq<char>, b: Seq<char>)
    requires
        at(t, p, a),
        at(t, p + a.len(), b),
    ensures
        at(t, p, a + b),
{
    reveal(at);
    at_chars(t, p, a);
    at_chars(t, p + a.len(), b);
    assert(t.subrange(p, p + a.len() + b.len()) =~= a + b) by {
        assert forall|i: int| 0 <= i < a.len() + b.len() implies t[p + i] == (a + b)[i] by {
            if i >= a.len() {
                assert(b[i - a.len()] == t[p + a.len() + (i - a.len())]);
            }
        }
    }
}

proof fn decimal_digits(n: nat)
    ensures
        decimal(n).len() >= 1,
        forall|i: int| 0 <= i < decimal(n).len() ==> is_digit(#[trigger] decimal(n)[i]),
    decreases n,
{
    if n >= 10 {
        decimal_digits(n / 10);
    }
}

proof fn digits_run(t: Seq<char>, p: int, q: int)
    requires
        0 <= p <= q < t.len(),
        forall|i: int| p <= i < q ==> is_digit(#[trigger] t[i]),
        !is_digit(t[q]),
    ensures
        digits_end(t, p) == q,
    decreases q - p,
{
    if p < q {
        digits_run(t, p + 1, q);
    }
}

proof fn digits_make_up(t: Seq<char>, p: int, n: nat)
    requires
        at(t, p, decimal(n)),
    ensures
        number_in(t, p, p + decimal(n).len()) == n,
    decreases n,
{
    reveal(at);
    let d = decimal(n);
    at_chars(t, p, d);
    assert(d.last() == t[p + d.len() - 1]);
    if n >= 10 {
        let e = decimal(n / 10);
        assert(d == e + seq![digit(n % 10)]);
        at_split(t, p, e, seq![digit(n % 10)]);
        digits_make_up(t, p, n / 10);
    } else {
        assert(number_in(t, p, p) == 0);
    }
}

/// A number that is printed is read back.
pub proof fn number_is_read(t: Seq<char>, p: int, n: nat)
    requires
        at(t, p, decimal(n)),
        p + decimal(n).len() < t.len(),
        !is_digit(t[p + decimal(n).len()]),
    ensures
        digits_end(t, p) == p + decimal(n).len(),
        number_in(t, p, p + decimal(n).len()) == n,
        decimal(n).len() >= 1,
{
    reveal(at);
    decimal_digits(n);
    at_chars(t, p, decimal(n));
    let q = p + decimal(n).len();
    assert forall|i: int| p <= i < q implies is_digit(#[trigger] t[i]) by {
        assert(decimal(n)[i - p] == t[p + (i - p)]);
    }
    digits_run(t, p, q);
    digits_make_up(t, p, n);
}

/// No character of a word is this one.
pub open spec fn free_of(w: Seq<char>, ch: char) -> bool {
    forall|i: int| 0 <= i < w.len() ==> #[trigger] w[i] != ch
}

pub proof fn until_finds(t: Seq<char>, p: int, q: int, ch: char)
    requires
        0 <= p <= q < t.len(),
        t[q] == ch,
        forall|i: int| p <= i < q ==> #[trigger] t[i] != ch,
    ensures
        until(t, p, ch) == q,
    decreases q - p,
{
    if p < q {
        until_finds(t, p + 1, q, ch);
    }
}

proof fn word_run(t: Seq<char>, p: int, q: int)
    requires
        0 <= p <= q < t.len(),
        t[q] == ' ' || t[q] == '\n',
        forall|i: int| p <= i < q ==> #[trigger] t[i] != ' ' && t[i] != '\n',
    ensures
        word_end(t, p) == q,
    decreases q - p,
{
    if p < q {
        word_run(t, p + 1, q);
    }
}

/// A word without blanks is read up to the blank behind it.
pub proof fn word_is_read(t: Seq<char>, p: int, w: Seq<char>)
    requires
        at(t, p, w),
        free_of(w, ' '),
        free_of(w, '\n'),
        p + w.len() < t.len(),
        t[p + w.len()] == ' ' || t[p + w.len()] == '\n',
    ensures
        word_end(t, p) == p + w.len(),
        t.subrange(p, p + w.len()) == w,
{
    reveal(at);
    at_chars(t, p, w);
    assert forall|i: int| p <= i < p + w.len() implies #[trigger] t[i] != ' ' && t[i] != '\n' by {
        assert(w[i - p] == t[p + (i - p)]);
    }
    word_run(t, p, p + w.len());
}

/// A character that a type goes on through, wherever it stands.
pub open spec fn ordinary(ch: char) -> bool {
    ch != '"' && ch != '{' && ch != '[' && ch != '}' && ch != ']' && !ends_type(ch)
}

/// Reading a type goes through the word, from a depth on.
pub open spec fn goes_through(w: Seq<char>, depth: int) -> bool {
    forall|t: Seq<char>, p: int, d: int|
        at(t, p, w) && d >= depth ==> #[trigger] type_end(t, p, d, false) == type_end(
            t,
            p + w.len(),
            d,
            false,
        )
}

proof fn ordinary_run(t: Seq<char>, p: int, n: int, d: int)
    requires
        0 <= p,
        0 <= n,
        p + n <= t.len(),
        0 <= d,
        forall|i: int|
            p <= i < p + n ==> ordinary(#[trigger] t[i]) || d >= 1 && (t[i] == ' ' || t[i] == ','),
    ensures
        type_end(t, p, d, false) == type_end(t, p + n, d, false),
    decreases n,
{
    if n > 0 {
        assert(ordinary(t[p]) || d >= 1 && (t[p] == ' ' || t[p] == ','));
        ordinary_run(t, p + 1, n - 1, d);
    }
}

proof fn quoted_run(t: Seq<char>, p: int, n: int, d: int)
    requires
        0 <= p,
        0 <= n,
        p + n <= t.len(),
        forall|i: int| p <= i < p + n ==> #[trigger] t[i] != '"',
    ensures
        type_end(t, p, d, true) == type_end(t, p + n, d, true),
    decreases n,
{
    if n > 0 {
        quoted_run(t, p + 1, n - 1, d);
    }
}

/// Ordinary words are gone through. So are blanks and commas within
/// braces.
pub proof fn ordinary_goes(w: Seq<char>, depth: int)
    requires
        0 <= depth,
        forall|i: int|
            0 <= i < w.len() ==> ordinary(#[trigger] w[i]) || depth >= 1 && (w[i] == ' ' || w[i] == ','),
    ensures
        goes_through(w, depth),
{
    reveal(at);
    assert forall|t: Seq<char>, p: int, d: int| at(t, p, w) && d >= depth implies #[trigger] type_end(
        t,
        p,
        d,
        false,
    ) == type_end(t, p + w.len(), d, false) by {
        at_chars(t, p, w);
        assert forall|i: int| p <= i < p + w.len() implies ordinary(#[trigger] t[i]) || d >= 1 && (t[i]
            == ' ' || t[i] == ',') by {
            assert(w[i - p] == t[p + (i - p)]);
        }
        ordinary_run(t, p, w.len() as int, d);
    }
}

pub proof fn through_joins(a: Seq<char>, b: Seq<char>, depth: int)
    requires
        goes_through(a, depth),
        goes_through(b, depth),
    ensures
        goes_through(a + b, depth),
{
    reveal(at);
    assert forall|t: Seq<char>, p: int, d: int| at(t, p, a + b) && d >= depth implies #[trigger] type_end(
        t,
        p,
        d,
        false,
    ) == type_end(t, p + (a + b).len(), d, false) by {
        at_split(t, p, a, b);
        assert(type_end(t, p, d, false) == type_end(t, p + a.len(), d, false));
        assert(type_end(t, p + a.len(), d, false) == type_end(t, p + a.len() + b.len(), d, false));
    }
}

/// What is gone through within braces or brackets is gone through with
/// them.
pub proof fn braces_go(open: Seq<char>, w: Seq<char>, close: Seq<char>)
    requires
        open == seq!['{'] || open == seq!['['],
        close == seq!['}'] || close == seq![']'],
        goes_through(w, 1),
    ensures
        goes_through(open + w + close, 0),
{
    reveal(at);
    let all = open + w + close;
    assert forall|t: Seq<char>, p: int, d: int| at(t, p, all) && d >= 0 implies #[trigger] type_end(
        t,
        p,
        d,
        false,
    ) == type_end(t, p + all.len(), d, false) by {
        at_split(t, p, open + w, close);
        at_split(t, p, open, w);
        at_chars(t, p, open);
        at_chars(t, p + 1 + w.len(), close);
        assert(open[0] == t[p + 0]);
        assert(close[0] == t[p + 1 + w.len() + 0]);
        assert(type_end(t, p, d, false) == type_end(t, p + 1, d + 1, false));
        assert(type_end(t, p + 1, d + 1, false) == type_end(t, p + 1 + w.len(), d + 1, false));
    }
}

/// A name in quotes is gone through.
proof fn quoted_goes(w: Seq<char>)
    requires
        free_of(w, '"'),
    ensures
        goes_through(seq!['%', '"'] + w + seq!['"'], 0),
{
    reveal(at);
    let open = seq!['%', '"'];
    let close = seq!['"'];
    let all = open + w + close;
    assert forall|t: Seq<char>, p: int, d: int| at(t, p, all) && d >= 0 implies #[trigger] type_end(
        t,
        p,
        d,
        false,
    ) == type_end(t, p + all.len(), d, false) by {
        at_split(t, p, open + w, close);
        at_split(t, p, open, w);
        at_chars(t, p, open);
        at_chars(t, p + 2, w);
        at_chars(t, p + 2 + w.len(), close);
        assert(open[0] == t[p + 0] && open[1] == t[p + 1]);
        assert(close[0] == t[p + 2 + w.len() + 0]);
        assert(type_end(t, p, d, false) == type_end(t, p + 1, d, false));
        assert(type_end(t, p + 1, d, false) == type_end(t, p + 2, d, true));
        assert forall|i: int| p + 2 <= i < p + 2 + w.len() implies #[trigger] t[i] != '"' by {
            assert(w[i - p - 2] == t[p + 2 + (i - p - 2)]);
        }
        quoted_run(t, p + 2, w.len() as int, d);
    }
}

/// A type that is gone through is read up to what ends it.
pub proof fn type_is_read(t: Seq<char>, p: int, w: Seq<char>)
    requires
        at(t, p, w),
        goes_through(w, 0),
        p + w.len() < t.len(),
        ends_type(t[p + w.len()]),
    ensures
        type_end(t, p, 0, false) == p + w.len(),
        t.subrange(p, p + w.len()) == w,
{
    reveal(at);
    assert(type_end(t, p, 0, false) == type_end(t, p + w.len(), 0, false));
}

pub proof fn hex_is_one(d: u8)
    requires
        d < 16,
    ensures
        hex_digit(d).len() == 1,
        is_digit(hex_digit(d)[0]) || 'A' <= hex_digit(d)[0] && hex_digit(d)[0] <= 'F',
        hex_value(hex_digit(d)[0]) == d,
{
    reveal_strlit("0");
    reveal_strlit("1");
    reveal_strlit("2");
    reveal_strlit("3");
    reveal_strlit("4");
    reveal_strlit("5");
    reveal_strlit("6");
    reveal_strlit("7");
    reveal_strlit("8");
    reveal_strlit("9");
    reveal_strlit("A");
    reveal_strlit("B");
    reveal_strlit("C");
    reveal_strlit("D");
    reveal_strlit("E");
    reveal_strlit("F");
}

/// The characters that escaped bytes are made of.
pub open spec fn escape_char(ch: char) -> bool {
    ch == '\\' || is_digit(ch) || 'A' <= ch && ch <= 'F'
}

/// Escaped bytes follow what was said, and are escapes alone.
pub proof fn escapes_append(o: Seq<char>, bytes: Seq<u8>, k: nat)
    requires
        k <= bytes.len(),
    ensures
        escaped_bytes(o, bytes, k) == o + escaped_bytes(Seq::empty(), bytes, k),
        escaped_bytes(Seq::empty(), bytes, k).len() == 3 * k,
        forall|i: int|
            0 <= i < 3 * k ==> escape_char(#[trigger] escaped_bytes(Seq::empty(), bytes, k)[i]),
        forall|j: int| 0 <= j < k ==> #[trigger] escaped_bytes(Seq::empty(), bytes, k)[3 * j] == '\\',
    decreases k,
{
    reveal_strlit("\\");
    let e: Seq<char> = Seq::empty();
    if k > 0 {
        escapes_append(o, bytes, (k - 1) as nat);
        let b = bytes[k - 1];
        hex_is_one(b / 16);
        hex_is_one(b % 16);
        let tail = "\\"@ + hex_digit(b / 16) + hex_digit(b % 16);
        assert(escaped_bytes(o, bytes, k) =~= escaped_bytes(o, bytes, (k - 1) as nat) + tail);
        assert(escaped_bytes(e, bytes, k) =~= escaped_bytes(e, bytes, (k - 1) as nat) + tail);
        assert(escaped_bytes(o, bytes, k) =~= o + escaped_bytes(e, bytes, k));
        let w = escaped_bytes(e, bytes, k);
        let v = escaped_bytes(e, bytes, (k - 1) as nat);
        assert forall|i: int| 0 <= i < 3 * k implies escape_char(#[trigger] w[i]) by {
            if i < v.len() {
                assert(w[i] == v[i]);
            } else {
                assert(w[i] == tail[i - v.len()]);
            }
        }
        assert forall|j: int| 0 <= j < k implies #[trigger] w[3 * j] == '\\' by {
            if j < k - 1 {
                assert(w[3 * j] == v[3 * j]);
            } else {
                assert(w[3 * j] == tail[0]);
            }
        }
    } else {
        assert(o =~= o + e);
    }
}

pub proof fn escapes_run(t: Seq<char>, p: int, k: int)
    requires
        0 <= p,
        0 <= k,
        p + 3 * k < t.len(),
        forall|j: int| 0 <= j < k ==> #[trigger] t[p + 3 * j] == '\\',
        t[p + 3 * k] != '\\',
    ensures
        escapes_end(t, p) == p + 3 * k,
    decreases k,
{
    if k > 0 {
        assert(t[p + 3 * 0] == '\\');
        assert forall|j: int| 0 <= j < k - 1 implies #[trigger] t[p + 3 + 3 * j] == '\\' by {
            assert(t[p + 3 * (j + 1)] == '\\');
        }
        escapes_run(t, p + 3, k - 1);
    }
}

/// Escaped text follows what was said, and is gone through in quotes.
pub proof fn escaped_appends(o: Seq<char>, text: Seq<char>)
    ensures
        escaped(o, text) == o + escaped(Seq::empty(), text),
        free_of(escaped(Seq::empty(), text), '"'),
        free_of(escaped(Seq::empty(), text), '@'),
        free_of(escaped(Seq::empty(), text), ' '),
        free_of(escaped(Seq::empty(), text), '\n'),
        free_of(escaped(Seq::empty(), text), '('),
        escaped(Seq::empty(), text).len() == 3 * encode_utf8(text).len(),
        forall|j: int|
            0 <= j < encode_utf8(text).len() ==> #[trigger] escaped(Seq::empty(), text)[3 * j] == '\\',
{
    let bytes = encode_utf8(text);
    escapes_append(o, bytes, bytes.len());
    let w = escaped(Seq::empty(), text);
    assert forall|i: int| 0 <= i < w.len() implies escape_char(#[trigger] w[i]) by {
        assert(escape_char(escaped_bytes(Seq::empty(), bytes, bytes.len())[i]));
    }
}

pub proof fn decimal_is_plain(n: nat)
    ensures
        free_of(decimal(n), '"'),
        free_of(decimal(n), '@'),
        free_of(decimal(n), ' '),
        free_of(decimal(n), '\n'),
        free_of(decimal(n), '('),
        goes_through(decimal(n), 0),
        decimal(n).len() >= 1,
        is_digit(decimal(n)[0]),
{
    decimal_digits(n);
    assert forall|i: int| 0 <= i < decimal(n).len() implies ordinary(#[trigger] decimal(n)[i]) by {
        assert(is_digit(decimal(n)[i]));
    }
    ordinary_goes(decimal(n), 0);
}

/// A type as it is spelled.
#[verifier::opaque]
pub open spec fn type_word(c: &EmitContext, ty: LType) -> Seq<char> {
    type_text(c, Seq::empty(), ty)
}

/// A word that is read as a type.
#[verifier::opaque]
pub open spec fn spells_type(w: Seq<char>) -> bool {
    &&& goes_through(w, 0)
    &&& free_of(w, '@')
    &&& free_of(w, '\n')
    &&& w.len() >= 1
}

/// A type in quotes.
proof fn named_type(o: Seq<char>, name: Seq<char>, mid: Seq<char>, n: Seq<char>)
    requires
        free_of(mid, '"'),
        free_of(mid, '@'),
        free_of(mid, '\n'),
        free_of(n, '"'),
        free_of(n, '@'),
        free_of(n, '\n'),
    ensures
        ({
            let e: Seq<char> = Seq::empty();
            let w = escaped(e + "%\""@, name) + mid + n + "\""@;
            &&& spells_type(w)
            &&& escaped(o + "%\""@, name) + mid + n + "\""@ == o + w
        }),
{
    reveal(spells_type);
    reveal_strlit("%\"");
    reveal_strlit("\"");
    let e: Seq<char> = Seq::empty();
    let w = escaped(e + "%\""@, name) + mid + n + "\""@;
    let x = escaped(e, name);
    escaped_appends(o + "%\""@, name);
    escaped_appends(e + "%\""@, name);
    let inner = x + mid + n;
    assert(free_of(inner, '"'));
    quoted_goes(inner);
    assert(w =~= seq!['%', '"'] + inner + seq!['"']);
    assert(escaped(o + "%\""@, name) + mid + n + "\""@ =~= o + w);
    assert(free_of(w, '@') && free_of(w, '\n'));
}

proof fn plain_type(w: Seq<char>)
    requires
        w.len() >= 1,
        forall|i: int| 0 <= i < w.len() ==> ordinary(#[trigger] w[i]) && w[i] != '@',
    ensures
        spells_type(w),
{
    reveal(spells_type);
    ordinary_goes(w, 0);
}

proof fn braced_type(w: Seq<char>)
    requires
        w.len() >= 2,
        w[0] == '{',
        w.last() == '}',
        forall|i: int|
            0 < i < w.len() - 1 ==> (ordinary(#[trigger] w[i]) || w[i] == ' ' || w[i] == ',') && w[i]
                != '@',
    ensures
        spells_type(w),
{
    reveal(spells_type);
    let inner = w.subrange(1, w.len() - 1);
    ordinary_goes(inner, 1);
    braces_go(seq!['{'], inner, seq!['}']);
    assert(w =~= seq!['{'] + inner + seq!['}']);
}

/// A type that is no envelope follows what was said, and is read.
pub proof fn flat_type_spells(c: &EmitContext, o: Seq<char>, ty: LType)
    ensures
        flat_type_text(c, o, ty) == o + flat_type_text(c, Seq::empty(), ty),
        spells_type(flat_type_text(c, Seq::empty(), ty)),
{
    reveal(spells_type);
    let e: Seq<char> = Seq::empty();
    let w = flat_type_text(c, e, ty);
    let none: Seq<char> = Seq::empty();
    match ty {
        LType::Void => {
            reveal_strlit("void");
            plain_type(w);
        },
        LType::I1 => {
            reveal_strlit("i1");
            plain_type(w);
        },
        LType::I8 => {
            reveal_strlit("i8");
            plain_type(w);
        },
        LType::I16 => {
            reveal_strlit("i16");
            plain_type(w);
        },
        LType::I32 => {
            reveal_strlit("i32");
            plain_type(w);
        },
        LType::I64 => {
            reveal_strlit("i64");
            plain_type(w);
        },
        LType::F32 => {
            reveal_strlit("float");
            plain_type(w);
        },
        LType::F64 => {
            reveal_strlit("double");
            plain_type(w);
        },
        LType::Ptr => {
            reveal_strlit("i8*");
            plain_type(w);
        },
        LType::List => {
            reveal_strlit("{ i8*, i64, i64 }");
            braced_type(w);
        },
        LType::Table => {
            reveal_strlit("{ i8*, i8*, i64, i64 }");
            braced_type(w);
        },
        LType::Closure => {
            reveal_strlit("{ i8*, i8* }");
            braced_type(w);
        },
        LType::EnvHeader => {
            reveal_strlit("{ i64, i8*, i8*, i64, i8* }");
            braced_type(w);
        },
        LType::Envelope(_) => {
            reveal_strlit("{ }");
            braced_type(w);
        },
        LType::Words(n) => {
            reveal_strlit("[");
            reveal_strlit(" x i64]");
            decimal_is_plain(n as nat);
            let d = decimal(n as nat);
            let rest = seq![' ', 'x', ' ', 'i', '6', '4'];
            let inner = d + rest;
            assert(goes_through(d, 1));
            ordinary_goes(rest, 1);
            through_joins(d, rest, 1);
            braces_go(seq!['['], inner, seq![']']);
            assert(w =~= seq!['['] + inner + seq![']']);
            assert(flat_type_text(c, o, ty) =~= o + w);
        },
        LType::Struct(s) => {
            named_type(o, c.mangled(s), none, none);
            assert(w =~= escaped(e + "%\""@, c.mangled(s)) + none + none + "\""@);
            assert(flat_type_text(c, o, ty) =~= escaped(o + "%\""@, c.mangled(s)) + none + none + "\""@);
        },
        LType::Enum(s) => {
            named_type(o, c.mangled(s), none, none);
            assert(w =~= escaped(e + "%\""@, c.mangled(s)) + none + none + "\""@);
            assert(flat_type_text(c, o, ty) =~= escaped(o + "%\""@, c.mangled(s)) + none + none + "\""@);
        },
        LType::Variant(s, t) => {
            reveal_strlit(".tag");
            decimal_is_plain(t as nat);
            named_type(o, c.mangled(s), ".tag"@, decimal(t as nat));
        },
        LType::Payload(s, t) => {
            reveal_strlit(".fields");
            decimal_is_plain(t as nat);
            named_type(o, c.mangled(s), ".fields"@, decimal(t as nat));
        },
        LType::Union(u) => {
            let s = c.union_symbol(u);
            named_type(o, c.mangled(s), none, none);
            assert(w =~= escaped(e + "%\""@, c.mangled(s)) + none + none + "\""@);
            assert(flat_type_text(c, o, ty) =~= escaped(o + "%\""@, c.mangled(s)) + none + none + "\""@);
        },
        LType::Tuple(n) => {
            reveal_strlit("%tuple.");
            decimal_is_plain(n as nat);
            ordinary_goes("%tuple."@, 0);
            through_joins("%tuple."@, decimal(n as nat), 0);
            assert(w =~= "%tuple."@ + decimal(n as nat));
            assert(flat_type_text(c, o, ty) =~= o + w);
        },
        LType::Env(n) => {
            reveal_strlit("%env.");
            decimal_is_plain(n as nat);
            ordinary_goes("%env."@, 0);
            through_joins("%env."@, decimal(n as nat), 0);
            assert(w =~= "%env."@ + decimal(n as nat));
            assert(flat_type_text(c, o, ty) =~= o + w);
        },
    }
    assert(flat_type_text(c, o, ty) =~= o + w);
}

/// A type follows what was said, and is read.
pub proof fn type_spells(c: &EmitContext, o: Seq<char>, ty: LType)
    ensures
        type_text(c, o, ty) == o + type_word(c, ty),
        spells_type(type_word(c, ty)),
{
    reveal(type_word);
    reveal(spells_type);
    let e: Seq<char> = Seq::empty();
    match ty {
        LType::Envelope(m) => {
            let lt = value_type(m);
            reveal_strlit("{ ");
            reveal_strlit(", [3 x i64] }");
            flat_type_spells(c, o + "{ "@, lt);
            flat_type_spells(c, e + "{ "@, lt);
            let f = flat_type_text(c, e, lt);
            let three = seq!['3', ' ', 'x', ' ', 'i', '6', '4'];
            let array = seq!['['] + three + seq![']'];
            ordinary_goes(three, 1);
            braces_go(seq!['['], three, seq![']']);
            ordinary_goes(seq![' '], 1);
            ordinary_goes(seq![',', ' '], 1);
            assert(goes_through(f, 1) && goes_through(array, 1));
            let a = seq![' '] + f;
            through_joins(seq![' '], f, 1);
            let b = a + seq![',', ' '];
            through_joins(a, seq![',', ' '], 1);
            let d = b + array;
            through_joins(b, array, 1);
            let inner = d + seq![' '];
            through_joins(d, seq![' '], 1);
            braces_go(seq!['{'], inner, seq!['}']);
            let w = type_word(c, ty);
            assert(w =~= seq!['{'] + inner + seq!['}']);
            assert(free_of(array, '@') && free_of(array, '\n'));
            assert(free_of(inner, '@') && free_of(inner, '\n'));
            assert(type_text(c, o, ty) =~= o + w);
        },
        _ => {
            flat_type_spells(c, o, ty);
        },
    }
}

/// The words of the types that stand in constants.
pub proof fn common_types_are_spelled(c: &EmitContext)
    ensures
        type_word(c, LType::I1) == "i1"@,
        type_word(c, LType::I32) == "i32"@,
        type_word(c, LType::I64) == "i64"@,
        type_word(c, LType::Ptr) == "i8*"@,
{
    reveal(type_word);
    assert(type_word(c, LType::I1) =~= "i1"@);
    assert(type_word(c, LType::I32) =~= "i32"@);
    assert(type_word(c, LType::I64) =~= "i64"@);
    assert(type_word(c, LType::Ptr) =~= "i8*"@);
}

/// A type with a star behind it is a type.
pub proof fn pointer_spells(w: Seq<char>)
    requires
        spells_type(w),
    ensures
        spells_type(w + "*"@),
{
    reveal(spells_type);
    reveal_strlit("*");
    ordinary_goes("*"@, 0);
    through_joins(w, "*"@, 0);
}

/// Some types that are listed.
proof fn types_list_spells(c: &EmitContext, o: Seq<char>, types: Seq<LType>, k: nat)
    requires
        k <= types.len(),
    ensures
        types_list_text(c, o, types, k) == o + types_list_text(c, Seq::empty(), types, k),
        free_of(types_list_text(c, Seq::empty(), types, k), '@'),
        free_of(types_list_text(c, Seq::empty(), types, k), '\n'),
    decreases k,
{
    reveal(spells_type);
    let e: Seq<char> = Seq::empty();
    reveal_strlit(", ");
    if k == 0 {
        assert(o =~= o + e);
    } else {
        types_list_spells(c, o, types, (k - 1) as nat);
        let a = types_list_text(c, o, types, (k - 1) as nat);
        let b = types_list_text(c, e, types, (k - 1) as nat);
        let x = if k > 1 { a + ", "@ } else { a };
        let y = if k > 1 { b + ", "@ } else { b };
        type_spells(c, x, types[k - 1]);
        type_spells(c, y, types[k - 1]);
        assert(types_list_text(c, o, types, k) =~= o + types_list_text(c, e, types, k));
    }
}

/// A function type as it is spelled.
pub open spec fn fn_type_word(c: &EmitContext, params: Seq<LType>, ret: LType) -> Seq<char> {
    fn_type_text(c, Seq::empty(), params, ret)
}

pub proof fn fn_type_spells(c: &EmitContext, o: Seq<char>, params: Seq<LType>, ret: LType)
    ensures
        fn_type_text(c, o, params, ret) == o + fn_type_word(c, params, ret),
        free_of(fn_type_word(c, params, ret), '@'),
        free_of(fn_type_word(c, params, ret), '\n'),
{
    reveal(spells_type);
    let e: Seq<char> = Seq::empty();
    reveal_strlit(" (");
    reveal_strlit(")");
    type_spells(c, o, ret);
    type_spells(c, e, ret);
    types_list_spells(c, type_text(c, o, ret) + " ("@, params, params.len());
    types_list_spells(c, type_text(c, e, ret) + " ("@, params, params.len());
    assert(fn_type_text(c, o, params, ret) =~= o + fn_type_word(c, params, ret));
}

/// A label as it is spelled.
pub open spec fn label_word(labels: Seq<Seq<char>>, b: nat) -> Seq<char> {
    label_text(Seq::empty(), labels, b)
}

pub proof fn label_spells(o: Seq<char>, labels: Seq<Seq<char>>, b: nat)
    ensures
        label_text(o, labels, b) == o + label_word(labels, b),
{
    escaped_appends(o + "\""@, word_of(labels, b));
    escaped_appends(Seq::<char>::empty() + "\""@, word_of(labels, b));
    assert(label_text(o, labels, b) =~= o + label_word(labels, b));
}

/// The label of a block names the block.
pub proof fn label_is_read(t: Seq<char>, p: int, labels: Seq<Seq<char>>, b: nat)
    requires
        at(t, p, label_word(labels, b)),
    ensures
        label_at(t, p) == Some((b, p + label_word(labels, b).len())),
{
    reveal(label_at);
    reveal(at);
    reveal_strlit("\"");
    reveal_strlit(".");
    let e: Seq<char> = Seq::empty();
    let x = escaped(e, word_of(labels, b));
    let k = encode_utf8(word_of(labels, b)).len() as int;
    escaped_appends(e + "\""@, word_of(labels, b));
    let w = label_word(labels, b);
    assert(w =~= "\""@ + x + "."@ + decimal(b) + "\""@);
    at_split(t, p, "\""@ + x + "."@ + decimal(b), "\""@);
    at_split(t, p, "\""@ + x + "."@, decimal(b));
    at_split(t, p, "\""@ + x, "."@);
    at_split(t, p, "\""@, x);
    at_chars(t, p + 1, x);
    let q = p + 1 + 3 * k;
    assert(t[q] == '.') by {
        at_chars(t, q, "."@);
        assert("."@[0] == t[q + 0]);
    }
    assert forall|j: int| 0 <= j < k implies #[trigger] t[p + 1 + 3 * j] == '\\' by {
        assert(x[3 * j] == t[p + 1 + 3 * j]);
    }
    escapes_run(t, p + 1, k);
    let r = q + 1 + decimal(b).len();
    at_chars(t, r, "\""@);
    assert("\""@[0] == t[r + 0]);
    number_is_read(t, q + 1, b);
}

/// What may follow an operand.
pub open spec fn ends_value(ch: char) -> bool {
    ch == ' ' || ch == ',' || ch == '\n' || ch == ')' || ch == ']'
}

/// The name of a global in quotes.
pub open spec fn quoted_name(name: Seq<char>, rest: Seq<char>) -> Seq<char> {
    escaped("@\""@, name) + rest + "\""@
}

/// What an operand is, as it should be spelled.
#[verifier::opaque]
pub open spec fn said(c: &EmitContext, nm: Names, val: Val) -> Said {
    match val {
        Val::Param(n) => Said::Local('a', n as nat),
        Val::At(n) => Said::Local('v', n as nat),
        Val::Slot(n) => Said::Local('s', n as nat),
        Val::Int(n) => Said::Number(n as nat),
        Val::Float(bits) => Said::Bits(bits as nat),
        Val::Null => Said::Null,
        Val::Undef => Said::Undef,
        Val::Zero => Said::Zero,
        Val::Words(x, y, z) => Said::Words(x as nat, y as nat, z as nat),
        Val::SizeOf(ty) => Said::Size(type_word(c, ty), 1),
        Val::Text(n) => if n < nm.texts.len() {
            Said::Address(literal_name(Seq::empty(), nm.function as nat, n as nat), 16)
        } else {
            Said::Undef
        },
        Val::Function(k) => if k < c.declared@.len() {
            Said::Address(quoted_name(c.declared@[k as int].name@, Seq::empty()), 0)
        } else {
            Said::Undef
        },
        Val::Shim(ty) => Said::Address(shim_name(Seq::empty(), shim_number(nm.shims, ty, 0)), 0),
        Val::StaticEnv(body) => Said::Address(quoted_name(c.mangled(body), ".$env$"@), 0),
        Val::ExitCode => Said::Address("@__koja_exit_code"@, 0),
    }
}

/// An operand as it is spelled.
pub open spec fn value_word(c: &EmitContext, nm: Names, val: Val) -> Seq<char> {
    value_text(c, nm, Seq::empty(), val)
}

spec fn sixteens(k: nat) -> nat
    decreases k,
{
    if k == 0 {
        1
    } else {
        16 * sixteens((k - 1) as nat)
    }
}

proof fn hex_spells(o: Seq<char>, n: u64, k: nat)
    ensures
        hexadecimal(o, n, k) == o + hexadecimal(Seq::empty(), n, k),
        hexadecimal(Seq::empty(), n, k).len() == k,
    decreases k,
{
    let e: Seq<char> = Seq::empty();
    if k == 0 {
        assert(o =~= o + e);
    } else {
        hex_spells(o, n / 16, (k - 1) as nat);
        hex_is_one((n % 16) as u8);
        assert(hexadecimal(o, n, k) =~= o + hexadecimal(e, n, k));
    }
}

proof fn hex_is_read(t: Seq<char>, p: int, n: u64, k: nat)
    requires
        at(t, p, hexadecimal(Seq::empty(), n, k)),
        n < sixteens(k),
    ensures
        hex_in(t, p, p + k) == n,
    decreases k,
{
    reveal(at);
    let e: Seq<char> = Seq::empty();
    if k > 0 {
        let d = hex_digit((n % 16) as u8);
        let w = hexadecimal(e, n / 16, (k - 1) as nat);
        hex_is_one((n % 16) as u8);
        hex_spells(e, n / 16, (k - 1) as nat);
        at_split(t, p, w, d);
        at_chars(t, p + k - 1, d);
        assert(d[0] == t[p + k - 1 + 0]);
        hex_is_read(t, p, n / 16, (k - 1) as nat);
    }
}

/// An operand follows what was said.
#[verifier::spinoff_prover]
#[verifier::rlimit(40)]
pub proof fn value_spells(c: &EmitContext, nm: Names, o: Seq<char>, val: Val)
    ensures
        value_text(c, nm, o, val) == o + value_word(c, nm, val),
{
    let e: Seq<char> = Seq::empty();
    match val {
        Val::Float(bits) => {
            hex_spells(o + "0x"@, bits, 16);
            hex_spells(e + "0x"@, bits, 16);
            assert(value_text(c, nm, o, val) =~= o + value_word(c, nm, val));
        },
        Val::SizeOf(ty) => {
            size_spells(c, nm, o, ty);
        },
        Val::Function(k) => {
            function_spells(c, nm, o, k);
        },
        Val::StaticEnv(body) => {
            escaped_appends(o + "bitcast ({ i64, i8*, i8*, i64, i8* }* @\""@, c.mangled(body));
            escaped_appends(e + "bitcast ({ i64, i8*, i8*, i64, i8* }* @\""@, c.mangled(body));
            assert(value_text(c, nm, o, val) =~= o + value_word(c, nm, val));
        },
        Val::Words(x, y, z) => {
            assert(value_text(c, nm, o, val) =~= o + value_word(c, nm, val));
        },
        Val::Text(n) => {
            assert(value_text(c, nm, o, val) =~= o + value_word(c, nm, val));
        },
        Val::Shim(ty) => {
            assert(value_text(c, nm, o, val) =~= o + value_word(c, nm, val));
        },
        _ => {
            assert(value_text(c, nm, o, val) =~= o + value_word(c, nm, val));
        },
    }
}

proof fn size_spells(c: &EmitContext, nm: Names, o: Seq<char>, ty: LType)
    ensures
        value_text(c, nm, o, Val::SizeOf(ty)) == o + value_word(c, nm, Val::SizeOf(ty)),
        value_word(c, nm, Val::SizeOf(ty)) == "ptrtoint ("@ + type_word(c, ty) + "* getelementptr ("@
            + type_word(c, ty) + ", "@ + type_word(c, ty) + "* null, i32 1) to i64)"@,
{
    let e: Seq<char> = Seq::empty();
    let w = type_word(c, ty);
    type_spells(c, o + "ptrtoint ("@, ty);
    type_spells(c, e + "ptrtoint ("@, ty);
    let a = type_text(c, o + "ptrtoint ("@, ty) + "* getelementptr ("@;
    let b = type_text(c, e + "ptrtoint ("@, ty) + "* getelementptr ("@;
    type_spells(c, a, ty);
    type_spells(c, b, ty);
    type_spells(c, type_text(c, a, ty) + ", "@, ty);
    type_spells(c, type_text(c, b, ty) + ", "@, ty);
    let x = "ptrtoint ("@ + w + "* getelementptr ("@ + w + ", "@ + w + "* null, i32 1) to i64)"@;
    assert(value_word(c, nm, Val::SizeOf(ty)) =~= x);
    assert(value_text(c, nm, o, Val::SizeOf(ty)) =~= o + x);
}

proof fn function_spells(c: &EmitContext, nm: Names, o: Seq<char>, k: usize)
    ensures
        value_text(c, nm, o, Val::Function(k)) == o + value_word(c, nm, Val::Function(k)),
        k < c.declared@.len() ==> value_word(c, nm, Val::Function(k)) == "bitcast ("@ + (fn_type_word(
            c,
            c.declared@[k as int].params@,
            c.declared@[k as int].ret,
        ) + "* "@) + quoted_name(c.declared@[k as int].name@, Seq::empty()) + " to i8*)"@,
{
    let e: Seq<char> = Seq::empty();
    if k < c.declared@.len() {
        let d = c.declared@[k as int];
        reveal_strlit("* @\"");
        reveal_strlit("* ");
        reveal_strlit("@\"");
        reveal_strlit("\" to i8*)");
        reveal_strlit(" to i8*)");
        reveal_strlit("\"");
        fn_type_spells(c, o + "bitcast ("@, d.params@, d.ret);
        fn_type_spells(c, e + "bitcast ("@, d.params@, d.ret);
        let f = fn_type_word(c, d.params@, d.ret);
        escaped_appends(fn_type_text(c, o + "bitcast ("@, d.params@, d.ret) + "* @\""@, d.name@);
        escaped_appends(fn_type_text(c, e + "bitcast ("@, d.params@, d.ret) + "* @\""@, d.name@);
        escaped_appends("@\""@, d.name@);
        let x = "bitcast ("@ + (f + "* "@) + quoted_name(d.name@, e) + " to i8*)"@;
        assert(value_word(c, nm, Val::Function(k)) =~= x);
        assert(value_text(c, nm, o, Val::Function(k)) =~= o + x);
    } else {
        assert(value_text(c, nm, o, Val::Function(k)) =~= o + value_word(c, nm, Val::Function(k)));
    }
}

pub proof fn local_is_read(t: Seq<char>, p: int, ch: char, n: nat)
    requires
        at(t, p, seq!['%', ch] + decimal(n)),
        p + 2 + decimal(n).len() < t.len(),
        ends_value(t[p + 2 + decimal(n).len()]),
    ensures
        value_at(t, p) == Some((Said::Local(ch, n), p + 2 + decimal(n).len())),
{
    reveal(value_at);
    reveal(number_at);
    let h = seq!['%', ch];
    at_split(t, p, h, decimal(n));
    at_chars(t, p, h);
    assert(h[0] == t[p + 0] && h[1] == t[p + 1]);
    number_is_read(t, p + 2, n);
}

/// An address of a global: the cast, the name and the end.
proof fn address_is_read(t: Seq<char>, p: int, front: Seq<char>, name: Seq<char>)
    requires
        at(t, p, "bitcast ("@ + front + name + " to i8*)"@),
        free_of(front, '@'),
        name.len() > 0,
        name[0] == '@',
        free_of(name, ' '),
        free_of(name, '\n'),
    ensures
        value_at(t, p) == Some(
            (Said::Address(name, 0), p + ("bitcast ("@ + front + name + " to i8*)"@).len()),
        ),
{
    reveal(value_at);
    reveal(at);
    reveal_strlit("bitcast (");
    reveal_strlit(" to i8*)");
    reveal_strlit("0x");
    reveal_strlit("null");
    reveal_strlit("undef");
    reveal_strlit("zeroinitializer");
    reveal_strlit("[i64 ");
    reveal_strlit("ptrtoint (");
    let b = "bitcast ("@;
    at_split(t, p, b + front + name, " to i8*)"@);
    at_split(t, p, b + front, name);
    at_split(t, p, b, front);
    at_chars(t, p, b);
    at_chars(t, p + b.len(), front);
    let a = p + b.len() + front.len();
    at_chars(t, a, name);
    at_chars(t, a + name.len(), " to i8*)"@);
    assert(name[0] == t[a + 0]);
    assert forall|i: int| p <= i < a implies #[trigger] t[i] != '@' by {
        if i < p + b.len() {
            assert(b[i - p] == t[p + (i - p)]);
        } else {
            assert(front[i - p - b.len()] == t[p + b.len() + (i - p - b.len())]);
        }
    }
    until_finds(t, p, a, '@');
    assert(" to i8*)"@[0] == t[a + name.len() + 0]);
    word_is_read(t, a, name);
    assert(b[0] == t[p + 0] && b[1] == t[p + 1]);
    assert(!at(t, p, "0x"@)) by {
        if at(t, p, "0x"@) {
            at_chars(t, p, "0x"@);
            assert("0x"@[0] == t[p + 0]);
        }
    }
    not_at(t, p, "null"@);
    not_at(t, p, "undef"@);
    not_at(t, p, "zeroinitializer"@);
    not_at(t, p, "[i64 "@);
    not_at(t, p, "ptrtoint ("@);
}

/// A text that begins otherwise does not have the word.
pub proof fn not_at(t: Seq<char>, p: int, w: Seq<char>)
    requires
        0 <= p < t.len(),
        w.len() > 0,
        w[0] != t[p],
    ensures
        !at(t, p, w),
{
    reveal(at);
    if at(t, p, w) {
        at_chars(t, p, w);
        assert(w[0] == t[p + 0]);
    }
}

proof fn literal_is_read(t: Seq<char>, p: int, front: Seq<char>, name: Seq<char>, n: nat)
    requires
        at(
            t,
            p,
            "getelementptr (i8, i8* bitcast ("@ + front + name + " to i8*), i64 "@ + decimal(n) + ")"@,
        ),
        free_of(front, '@'),
        name.len() > 0,
        name[0] == '@',
        free_of(name, ' '),
        free_of(name, '\n'),
    ensures
        value_at(t, p) == Some(
            (
                Said::Address(name, n),
                p + ("getelementptr (i8, i8* bitcast ("@ + front + name + " to i8*), i64 "@ + decimal(n)
                    + ")"@).len(),
            ),
        ),
{
    reveal(value_at);
    reveal(number_at);
    reveal(at);
    reveal_strlit("getelementptr (i8, i8* bitcast (");
    reveal_strlit(" to i8*), i64 ");
    reveal_strlit(")");
    reveal_strlit("0x");
    reveal_strlit("null");
    reveal_strlit("undef");
    reveal_strlit("zeroinitializer");
    reveal_strlit("[i64 ");
    reveal_strlit("ptrtoint (");
    reveal_strlit("bitcast (");
    let b = "getelementptr (i8, i8* bitcast ("@;
    let m = " to i8*), i64 "@;
    let d = decimal(n);
    at_split(t, p, b + front + name + m + d, ")"@);
    at_split(t, p, b + front + name + m, d);
    at_split(t, p, b + front + name, m);
    at_split(t, p, b + front, name);
    at_split(t, p, b, front);
    at_chars(t, p, b);
    at_chars(t, p + b.len(), front);
    let a = p + b.len() + front.len();
    at_chars(t, a, name);
    at_chars(t, a + name.len(), m);
    assert(name[0] == t[a + 0]);
    assert forall|i: int| p <= i < a implies #[trigger] t[i] != '@' by {
        if i < p + b.len() {
            assert(b[i - p] == t[p + (i - p)]);
        } else {
            assert(front[i - p - b.len()] == t[p + b.len() + (i - p - b.len())]);
        }
    }
    until_finds(t, p, a, '@');
    assert(m[0] == t[a + name.len() + 0]);
    word_is_read(t, a, name);
    let q = a + name.len() + m.len();
    at_chars(t, q + d.len(), ")"@);
    assert(")"@[0] == t[q + d.len() + 0]);
    number_is_read(t, q, n);
    assert(b[0] == t[p + 0] && b[1] == t[p + 1]);
    not_at(t, p, "0x"@);
    not_at(t, p, "null"@);
    not_at(t, p, "undef"@);
    not_at(t, p, "zeroinitializer"@);
    not_at(t, p, "[i64 "@);
    not_at(t, p, "ptrtoint ("@);
    not_at(t, p, "bitcast ("@);
}

proof fn size_is_read(t: Seq<char>, p: int, w: Seq<char>)
    requires
        spells_type(w),
        at(
            t,
            p,
            "ptrtoint ("@ + w + "* getelementptr ("@ + w + ", "@ + w + "* null, i32 1) to i64)"@,
        ),
    ensures
        value_at(t, p) == Some(
            (
                Said::Size(w, 1),
                p + ("ptrtoint ("@ + w + "* getelementptr ("@ + w + ", "@ + w
                    + "* null, i32 1) to i64)"@).len(),
            ),
        ),
{
    reveal(value_at);
    reveal(number_at);
    reveal(type_at);
    reveal(spells_type);
    reveal(at);
    reveal_strlit("ptrtoint (");
    reveal_strlit("* getelementptr (");
    reveal_strlit(" getelementptr (");
    reveal_strlit(", ");
    reveal_strlit("*");
    reveal_strlit("* null, i32 1) to i64)");
    reveal_strlit(" null, i32 ");
    reveal_strlit(") to i64)");
    reveal_strlit("0x");
    reveal_strlit("null");
    reveal_strlit("undef");
    reveal_strlit("zeroinitializer");
    reveal_strlit("[i64 ");
    let h = "ptrtoint ("@;
    let g = "* getelementptr ("@;
    let z = "* null, i32 1) to i64)"@;
    at_split(t, p, h + w + g + w + ", "@ + w, z);
    at_split(t, p, h + w + g + w + ", "@, w);
    at_split(t, p, h + w + g + w, ", "@);
    at_split(t, p, h + w + g, w);
    at_split(t, p, h + w, g);
    at_split(t, p, h, w);
    at_chars(t, p, h);
    assert(h[0] == t[p + 0]);
    not_at(t, p, "0x"@);
    not_at(t, p, "null"@);
    not_at(t, p, "undef"@);
    not_at(t, p, "zeroinitializer"@);
    not_at(t, p, "[i64 "@);
    pointer_spells(w);
    let p1 = p + 10;
    let q1 = p1 + w.len() + 1;
    assert(g =~= "*"@ + " getelementptr ("@);
    at_split(t, p1 + w.len(), "*"@, " getelementptr ("@);
    at_join(t, p1, w, "*"@);
    at_chars(t, q1, " getelementptr ("@);
    assert(" getelementptr ("@[0] == t[q1 + 0]);
    type_is_read(t, p1, w + "*"@);
    let p2 = q1 + 16;
    let q2 = p2 + w.len();
    at_chars(t, q2, ", "@);
    assert(", "@[0] == t[q2 + 0]);
    type_is_read(t, p2, w);
    let p3 = q2 + 2;
    let q3 = p3 + w.len() + 1;
    assert(decimal(1) =~= seq!['1']);
    assert(z =~= "*"@ + (" null, i32 "@ + decimal(1) + ") to i64)"@));
    at_split(t, p3 + w.len(), "*"@, " null, i32 "@ + decimal(1) + ") to i64)"@);
    at_split(t, q3, " null, i32 "@ + decimal(1), ") to i64)"@);
    at_split(t, q3, " null, i32 "@, decimal(1));
    at_join(t, p3, w, "*"@);
    at_chars(t, q3, " null, i32 "@);
    assert(" null, i32 "@[0] == t[q3 + 0]);
    type_is_read(t, p3, w + "*"@);
    let p4 = q3 + 11;
    at_chars(t, p4 + 1, ") to i64)"@);
    assert(") to i64)"@[0] == t[p4 + 1 + 0]);
    number_is_read(t, p4, 1);
}

proof fn words_are_read(t: Seq<char>, p: int, x: nat, y: nat, z: nat)
    requires
        at(
            t,
            p,
            "[i64 "@ + decimal(x) + ", i64 "@ + decimal(y) + ", i64 "@ + decimal(z) + "]"@,
        ),
    ensures
        value_at(t, p) == Some(
            (
                Said::Words(x, y, z),
                p + ("[i64 "@ + decimal(x) + ", i64 "@ + decimal(y) + ", i64 "@ + decimal(z)
                    + "]"@).len(),
            ),
        ),
{
    reveal(value_at);
    reveal(number_at);
    reveal(at);
    reveal_strlit("[i64 ");
    reveal_strlit(", i64 ");
    reveal_strlit("]");
    reveal_strlit("0x");
    reveal_strlit("null");
    reveal_strlit("undef");
    reveal_strlit("zeroinitializer");
    let (h, m, a, b, d) = ("[i64 "@, ", i64 "@, decimal(x), decimal(y), decimal(z));
    at_split(t, p, h + a + m + b + m + d, "]"@);
    at_split(t, p, h + a + m + b + m, d);
    at_split(t, p, h + a + m + b, m);
    at_split(t, p, h + a + m, b);
    at_split(t, p, h + a, m);
    at_split(t, p, h, a);
    at_chars(t, p, h);
    assert(h[0] == t[p + 0]);
    not_at(t, p, "0x"@);
    not_at(t, p, "null"@);
    not_at(t, p, "undef"@);
    not_at(t, p, "zeroinitializer"@);
    let q1 = p + 5 + a.len();
    at_chars(t, q1, m);
    assert(m[0] == t[q1 + 0]);
    number_is_read(t, p + 5, x);
    let q2 = q1 + 6 + b.len();
    at_chars(t, q2, m);
    assert(m[0] == t[q2 + 0]);
    number_is_read(t, q1 + 6, y);
    let q3 = q2 + 6 + d.len();
    at_chars(t, q3, "]"@);
    assert("]"@[0] == t[q3 + 0]);
    number_is_read(t, q2 + 6, z);
}

/// A number as an operand.
pub proof fn integer_is_read(t: Seq<char>, p: int, n: nat)
    requires
        at(t, p, decimal(n)),
        p + decimal(n).len() < t.len(),
        ends_value(t[p + decimal(n).len()]),
    ensures
        value_at(t, p) == Some((Said::Number(n), p + decimal(n).len())),
{
    reveal(value_at);
    reveal(number_at);
    reveal_strlit("0x");
    decimal_digits(n);
    at_chars(t, p, decimal(n));
    number_is_read(t, p, n);
    assert(decimal(n)[0] == t[p + 0]);
    assert(!at(t, p, "0x"@)) by {
        if at(t, p, "0x"@) {
            at_chars(t, p, "0x"@);
            assert("0x"@[1] == t[p + 1]);
            if decimal(n).len() > 1 {
                assert(is_digit(decimal(n)[1]));
                assert(decimal(n)[1] == t[p + 1]);
            }
        }
    }
}

proof fn text_is_read(t: Seq<char>, p: int, c: &EmitContext, nm: Names, n: usize)
    requires
        at(t, p, value_word(c, nm, Val::Text(n))),
    ensures
        value_at(t, p) == Some((said(c, nm, Val::Text(n)), p + value_word(c, nm, Val::Text(n)).len())),
{
    reveal(said);
    let e: Seq<char> = Seq::empty();
    let w = value_word(c, nm, Val::Text(n));
    if n < nm.texts.len() {
        let front = literal_type_text(e, nm.texts[n as int]) + "* "@;
        let name = literal_name(e, nm.function as nat, n as nat);
        literal_type_is_plain(nm.texts[n as int]);
        reveal_strlit("* ");
        literal_name_is_plain(nm.function as nat, n as nat);
        assert(decimal(16) =~= seq!['1', '6']) by {
            assert(decimal(1) =~= seq!['1']);
        }
        reveal_strlit(" to i8*), i64 16)");
        reveal_strlit(" to i8*), i64 ");
        reveal_strlit(")");
        assert(" to i8*), i64 16)"@ =~= " to i8*), i64 "@ + decimal(16) + ")"@);
        assert(w =~= "getelementptr (i8, i8* bitcast ("@ + front + name + " to i8*), i64 "@ + decimal(16)
            + ")"@);
        literal_is_read(t, p, front, name, 16);
    } else {
        assert(w =~= "undef"@);
        undef_is_read(t, p);
    }
}

proof fn function_is_read(t: Seq<char>, p: int, c: &EmitContext, nm: Names, k: usize)
    requires
        at(t, p, value_word(c, nm, Val::Function(k))),
    ensures
        value_at(t, p) == Some((said(c, nm, Val::Function(k)), p + value_word(c, nm, Val::Function(k)).len())),
{
    reveal(said);
    let e: Seq<char> = Seq::empty();
    let w = value_word(c, nm, Val::Function(k));
    function_spells(c, nm, e, k);
    if k < c.declared@.len() {
        let d = c.declared@[k as int];
        let f = fn_type_word(c, d.params@, d.ret);
        reveal_strlit("* ");
        reveal_strlit("@\"");
        reveal_strlit("\"");
        fn_type_spells(c, e, d.params@, d.ret);
        escaped_appends("@\""@, d.name@);
        let name = quoted_name(d.name@, e);
        assert(name =~= "@\""@ + escaped(e, d.name@) + "\""@);
        assert(free_of(name, ' ') && free_of(name, '\n'));
        address_is_read(t, p, f + "* "@, name);
    } else {
        assert(w =~= "undef"@);
        undef_is_read(t, p);
    }
}

proof fn global_is_read(t: Seq<char>, p: int, c: &EmitContext, nm: Names, val: Val)
    requires
        val is Shim || val is StaticEnv || val is ExitCode,
        at(t, p, value_word(c, nm, val)),
    ensures
        value_at(t, p) == Some((said(c, nm, val), p + value_word(c, nm, val).len())),
{
    reveal(said);
    let e: Seq<char> = Seq::empty();
    let w = value_word(c, nm, val);
    match val {
        Val::Shim(ty) => {
            reveal_strlit("bitcast (void (i8*)* ");
            reveal_strlit("bitcast (");
            reveal_strlit("void (i8*)* ");
            reveal_strlit("@koja_drop.");
            let k = shim_number(nm.shims, ty, 0);
            let name = shim_name(e, k);
            decimal_is_plain(k);
            assert(name =~= "@koja_drop."@ + decimal(k));
            assert(w =~= "bitcast ("@ + "void (i8*)* "@ + name + " to i8*)"@);
            address_is_read(t, p, "void (i8*)* "@, name);
        },
        Val::StaticEnv(body) => {
            reveal_strlit("bitcast ({ i64, i8*, i8*, i64, i8* }* @\"");
            reveal_strlit("bitcast (");
            reveal_strlit("{ i64, i8*, i8*, i64, i8* }* ");
            reveal_strlit("@\"");
            reveal_strlit(".$env$\" to i8*)");
            reveal_strlit(".$env$");
            reveal_strlit(" to i8*)");
            reveal_strlit("\"");
            escaped_appends(e + "bitcast ({ i64, i8*, i8*, i64, i8* }* @\""@, c.mangled(body));
            escaped_appends("@\""@, c.mangled(body));
            let name = quoted_name(c.mangled(body), ".$env$"@);
            assert(name =~= "@\""@ + escaped(e, c.mangled(body)) + ".$env$"@ + "\""@);
            assert(free_of(name, ' ') && free_of(name, '\n'));
            assert(w =~= "bitcast ("@ + "{ i64, i8*, i8*, i64, i8* }* "@ + name + " to i8*)"@);
            address_is_read(t, p, "{ i64, i8*, i8*, i64, i8* }* "@, name);
        },
        Val::ExitCode => {
            reveal_strlit("bitcast (i32* @__koja_exit_code to i8*)");
            reveal_strlit("bitcast (");
            reveal_strlit("i32* ");
            reveal_strlit("@__koja_exit_code");
            reveal_strlit(" to i8*)");
            assert(w =~= "bitcast ("@ + "i32* "@ + "@__koja_exit_code"@ + " to i8*)"@);
            address_is_read(t, p, "i32* "@, "@__koja_exit_code"@);
        },
        _ => {},
    }
}

/// An operand that is printed is read back.
#[verifier::spinoff_prover]
#[verifier::rlimit(40)]
pub proof fn value_is_read(t: Seq<char>, p: int, c: &EmitContext, nm: Names, val: Val)
    requires
        at(t, p, value_word(c, nm, val)),
        p + value_word(c, nm, val).len() < t.len(),
        ends_value(t[p + value_word(c, nm, val).len()]),
    ensures
        value_at(t, p) == Some((said(c, nm, val), p + value_word(c, nm, val).len())),
{
    reveal(said);
    reveal(value_at);
    reveal(at);
    let e: Seq<char> = Seq::empty();
    let w = value_word(c, nm, val);
    reveal_strlit("0x");
    reveal_strlit("null");
    reveal_strlit("undef");
    reveal_strlit("zeroinitializer");
    match val {
        Val::Param(n) => {
            reveal_strlit("%a");
            assert(w =~= seq!['%', 'a'] + decimal(n as nat));
            local_is_read(t, p, 'a', n as nat);
        },
        Val::At(n) => {
            reveal_strlit("%v");
            assert(w =~= seq!['%', 'v'] + decimal(n as nat));
            local_is_read(t, p, 'v', n as nat);
        },
        Val::Slot(n) => {
            reveal_strlit("%s");
            assert(w =~= seq!['%', 's'] + decimal(n as nat));
            local_is_read(t, p, 's', n as nat);
        },
        Val::Int(n) => {
            assert(w =~= decimal(n as nat));
            integer_is_read(t, p, n as nat);
        },
        Val::Float(bits) => {
            hex_spells(e + "0x"@, bits, 16);
            assert(w =~= "0x"@ + hexadecimal(e, bits, 16));
            at_split(t, p, "0x"@, hexadecimal(e, bits, 16));
            at_chars(t, p, "0x"@);
            assert("0x"@[0] == t[p + 0]);
            assert(sixteens(16) == 0x1_0000_0000_0000_0000) by {
                reveal_with_fuel(sixteens, 17);
            }
            hex_is_read(t, p + 2, bits, 16);
        },
        Val::Null => {
            assert(w =~= "null"@);
            at_chars(t, p, "null"@);
            assert("null"@[0] == t[p + 0]);
            not_at(t, p, "0x"@);
        },
        Val::Undef => {
            assert(w =~= "undef"@);
            undef_is_read(t, p);
        },
        Val::Zero => {
            assert(w =~= "zeroinitializer"@);
            at_chars(t, p, "zeroinitializer"@);
            assert("zeroinitializer"@[0] == t[p + 0]);
            not_at(t, p, "0x"@);
            not_at(t, p, "null"@);
            not_at(t, p, "undef"@);
        },
        Val::Words(x, y, z) => {
            assert(w =~= "[i64 "@ + decimal(x as nat) + ", i64 "@ + decimal(y as nat) + ", i64 "@ + decimal(
                z as nat,
            ) + "]"@);
            words_are_read(t, p, x as nat, y as nat, z as nat);
        },
        Val::SizeOf(ty) => {
            size_spells(c, nm, e, ty);
            type_spells(c, e, ty);
            size_is_read(t, p, type_word(c, ty));
        },
        Val::Text(n) => {
            text_is_read(t, p, c, nm, n);
        },
        Val::Function(k) => {
            function_is_read(t, p, c, nm, k);
        },
        _ => {
            global_is_read(t, p, c, nm, val);
        },
    }
}

proof fn undef_is_read(t: Seq<char>, p: int)
    requires
        at(t, p, "undef"@),
    ensures
        value_at(t, p) == Some((Said::Undef, p + "undef"@.len())),
{
    reveal(value_at);
    reveal(at);
    reveal_strlit("0x");
    reveal_strlit("null");
    reveal_strlit("undef");
    at_chars(t, p, "undef"@);
    assert("undef"@[0] == t[p + 0]);
    not_at(t, p, "0x"@);
    not_at(t, p, "null"@);
}

proof fn literal_type_is_plain(bytes: Seq<u8>)
    ensures
        free_of(literal_type_text(Seq::empty(), bytes), '@'),
{
    reveal_strlit("{ i64, i64, [");
    reveal_strlit(" x i8], i8 }");
    decimal_is_plain(bytes.len());
}

pub proof fn literal_name_is_plain(f: nat, n: nat)
    ensures
        literal_name(Seq::empty(), f, n).len() > 0,
        literal_name(Seq::empty(), f, n)[0] == '@',
        free_of(literal_name(Seq::empty(), f, n), ' '),
        free_of(literal_name(Seq::empty(), f, n), '\n'),
{
    reveal_strlit("@txt.");
    reveal_strlit(".");
    decimal_is_plain(f);
    decimal_is_plain(n);
}

} // verus!
