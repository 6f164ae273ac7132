//! Small text building blocks.

use vstd::prelude::*;
use vstd::string::StringExecFns;
use vstd::utf8::{encode_utf8, encode_utf8_decode_utf8};

verus! {

/// `a` followed by `b`.
pub fn concat2(a: &str, b: &str) -> (r: String)
    ensures
        r@ == a@ + b@,
{
    let mut r = a.to_owned();
    r.append(b);
    r
}

/// `a`, `b` and `c` in a row.
pub fn concat3(a: &str, b: &str, c: &str) -> (r: String)
    ensures
        r@ == a@ + b@ + c@,
{
    let mut r = concat2(a, b);
    r.append(c);
    r
}

/// Five texts in a row.
pub fn concat5(a: &str, b: &str, c: &str, d: &str, e: &str) -> (r: String)
    ensures
        r@ == a@ + b@ + c@ + d@ + e@,
{
    let mut r = concat3(a, b, c);
    r.append(d);
    r.append(e);
    r
}

/// Whether two texts hold the same characters.
pub fn same(a: &str, b: &str) -> (r: bool)
    ensures
        r == (a@ == b@),
{
    let n: usize = a.unicode_len();
    if n != b.unicode_len() {
        return false;
    }
    let mut i: usize = 0;
    while i < n
        invariant
            n == a@.len(),
            n == b@.len(),
            i <= n,
            forall|j: int| 0 <= j < i ==> a@[j] == b@[j],
        decreases n - i,
    {
        if a.get_char(i) != b.get_char(i) {
            return false;
        }
        i = i + 1;
    }
    assert(a@ =~= b@);
    true
}

/// The decimal digit for `d`.
pub open spec fn digit(d: nat) -> char {
    (48 + d) as u8 as char
}

/// The decimal digits of `n`, without leading zeros.
pub open spec fn decimal(n: nat) -> Seq<char>
    decreases n,
{
    if n < 10 {
        seq![digit(n)]
    } else {
        decimal(n / 10).push(digit(n % 10))
    }
}

/// Numbers that are written alike are alike.
pub proof fn decimal_is_injective(m: nat, n: nat)
    requires
        decimal(m) == decimal(n),
    ensures
        m == n,
    decreases m,
{
    decimal_is_not_empty(m / 10);
    decimal_is_not_empty(n / 10);
    assert(decimal(m).last() == digit(m % 10) && decimal(n).last() == digit(n % 10));
    assert(m % 10 == n % 10);
    if m >= 10 && n >= 10 {
        assert(decimal(m).drop_last() =~= decimal(m / 10));
        assert(decimal(n).drop_last() =~= decimal(n / 10));
        decimal_is_injective(m / 10, n / 10);
    }
}

proof fn decimal_is_not_empty(n: nat)
    ensures
        decimal(n).len() >= 1,
    decreases n,
{
    if n >= 10 {
        decimal_is_not_empty(n / 10);
    }
}

fn digit_text(d: u64) -> (r: &'static str)
    requires
        d < 10,
    ensures
        r@ == seq![digit(d as nat)],
{
    proof {
        reveal_strlit("0");
        reveal_strlit("1");
        reveal_strlit("2");
        reveal_strlit("3");
        reveal_strlit("4");
        reveal_strlit("5");
        reveal_strlit("6");
        reveal_strlit("7");
        reveal_strlit("8");
        reveal_strlit("9");
    }
    let r: &'static str = match d {
        0 => "0",
        1 => "1",
        2 => "2",
        3 => "3",
        4 => "4",
        5 => "5",
        6 => "6",
        7 => "7",
        8 => "8",
        _ => "9",
    };
    assert(r@ =~= seq![digit(d as nat)]);
    r
}

/// `n` in decimal.
pub fn u64_text(n: u64) -> (r: String)
    ensures
        r@ == decimal(n as nat),
    decreases n,
{
    if n < 10 {
        digit_text(n).to_owned()
    } else {
        let mut r = u64_text(n / 10);
        let last: &str = digit_text(n % 10);
        r.append(last);
        assert(r@ =~= decimal((n / 10) as nat).push(digit((n % 10) as nat)));
        r
    }
}

/// `n` in decimal.
pub fn usize_text(n: usize) -> (r: String)
    ensures
        r@ == decimal(n as nat),
{
    u64_text(n as u64)
}

/// Whether `a` begins with `prefix`.
pub fn starts_with(a: &str, prefix: &str) -> (r: bool)
    ensures
        r == prefix@.is_prefix_of(a@),
{
    let n: usize = prefix.unicode_len();
    if a.unicode_len() < n {
        return false;
    }
    let mut i: usize = 0;
    while i < n
        invariant
            n == prefix@.len(),
            n <= a@.len(),
            i <= n,
            forall|j: int| 0 <= j < i ==> a@[j] == prefix@[j],
        decreases n - i,
    {
        if a.get_char(i) != prefix.get_char(i) {
            return false;
        }
        i = i + 1;
    }
    assert(prefix@ =~= a@.subrange(0, n as int));
    true
}

/// Appends a text.
pub fn put(out: &mut String, text: &str)
    ensures
        final(out)@ == old(out)@ + text@,
{
    out.append(text);
}

/// Appends a number in decimal.
pub fn put_num(out: &mut String, n: u64)
    ensures
        final(out)@ == old(out)@ + decimal(n as nat),
{
    let digits = u64_text(n);
    out.append(digits.as_str());
}

/// Appends a number in decimal.
pub fn put_usize(out: &mut String, n: usize)
    ensures
        final(out)@ == old(out)@ + decimal(n as nat),
{
    put_num(out, n as u64);
}

/// The hexadecimal digit for `d`.
pub open spec fn hex_digit(d: u8) -> Seq<char> {
    match d {
        0u8 => "0"@,
        1u8 => "1"@,
        2u8 => "2"@,
        3u8 => "3"@,
        4u8 => "4"@,
        5u8 => "5"@,
        6u8 => "6"@,
        7u8 => "7"@,
        8u8 => "8"@,
        9u8 => "9"@,
        10u8 => "A"@,
        11u8 => "B"@,
        12u8 => "C"@,
        13u8 => "D"@,
        14u8 => "E"@,
        _ => "F"@,
    }
}

fn hex_text(d: u8) -> (r: &'static str)
    ensures
        r@ == hex_digit(d),
{
    match d {
        0 => "0",
        1 => "1",
        2 => "2",
        3 => "3",
        4 => "4",
        5 => "5",
        6 => "6",
        7 => "7",
        8 => "8",
        9 => "9",
        10 => "A",
        11 => "B",
        12 => "C",
        13 => "D",
        14 => "E",
        _ => "F",
    }
}

/// What `o` says, then the first `k` bytes, each as a backslash and two
/// hexadecimal digits.
pub open spec fn escaped_bytes(o: Seq<char>, bytes: Seq<u8>, k: nat) -> Seq<char>
    decreases k,
{
    if k == 0 {
        o
    } else {
        let b = bytes[k - 1];
        escaped_bytes(o, bytes, (k - 1) as nat) + "\\"@ + hex_digit(b / 16) + hex_digit(b % 16)
    }
}

/// What `o` says, then the bytes of a text, escaped.
pub open spec fn escaped(o: Seq<char>, text: Seq<char>) -> Seq<char> {
    escaped_bytes(o, encode_utf8(text), encode_utf8(text).len())
}

proof fn hex_digits_reveal(d: u8)
    requires
        d < 16,
    ensures
        hex_digit(d).len() == 1,
        hex_digit(d)[0] as u32 == if d < 10 {
            48 + d as u32
        } else {
            55 + d as u32
        },
{
    reveal_strlit("0");
    reveal_strlit("1");
    reveal_strlit("2");
    reveal_strlit("3");
    reveal_strlit("4");
    reveal_strlit("5");
    reveal_strlit("6");
    reveal_strlit("7");
    reveal_strlit("8");
    reveal_strlit("9");
    reveal_strlit("A");
    reveal_strlit("B");
    reveal_strlit("C");
    reveal_strlit("D");
    reveal_strlit("E");
    reveal_strlit("F");
}

proof fn escaped_length(o: Seq<char>, bytes: Seq<u8>, k: nat)
    requires
        k <= bytes.len(),
    ensures
        escaped_bytes(o, bytes, k).len() == o.len() + 3 * k,
    decreases k,
{
    reveal_strlit("\\");
    if k > 0 {
        escaped_length(o, bytes, (k - 1) as nat);
        hex_digits_reveal(bytes[k - 1] / 16);
        hex_digits_reveal(bytes[k - 1] % 16);
    }
}

proof fn escaped_prefix_is_injective(o: Seq<char>, a: Seq<u8>, b: Seq<u8>, k: nat)
    requires
        k <= a.len(),
        k <= b.len(),
        escaped_bytes(o, a, k) == escaped_bytes(o, b, k),
    ensures
        forall|i: int| 0 <= i < k ==> a[i] == b[i],
    decreases k,
{
    if k > 0 {
        let (x, y) = (a[k - 1], b[k - 1]);
        let (p, q) = (escaped_bytes(o, a, (k - 1) as nat), escaped_bytes(o, b, (k - 1) as nat));
        let whole = escaped_bytes(o, a, k);
        let other = escaped_bytes(o, b, k);
        reveal_strlit("\\");
        escaped_length(o, a, (k - 1) as nat);
        escaped_length(o, b, (k - 1) as nat);
        hex_digits_reveal(x / 16);
        hex_digits_reveal(x % 16);
        hex_digits_reveal(y / 16);
        hex_digits_reveal(y % 16);
        let n = p.len() as int;
        assert(p =~= whole.subrange(0, n));
        assert(q =~= other.subrange(0, n));
        assert(whole[n + 1] == hex_digit(x / 16)[0] && whole[n + 2] == hex_digit(x % 16)[0]);
        assert(other[n + 1] == hex_digit(y / 16)[0] && other[n + 2] == hex_digit(y % 16)[0]);
        assert(x / 16 == y / 16 && x % 16 == y % 16);
        escaped_prefix_is_injective(o, a, b, (k - 1) as nat);
    }
}

/// Texts that are written alike are alike: no two names become one by
/// escaping.
pub proof fn escaping_is_injective(o: Seq<char>, a: Seq<char>, b: Seq<char>)
    requires
        escaped(o, a) == escaped(o, b),
    ensures
        a == b,
{
    let (x, y) = (encode_utf8(a), encode_utf8(b));
    escaped_length(o, x, x.len());
    escaped_length(o, y, y.len());
    escaped_prefix_is_injective(o, x, y, x.len());
    assert(x =~= y);
    encode_utf8_decode_utf8(a);
    encode_utf8_decode_utf8(b);
}

/// Appends the bytes of a text, escaped.
pub fn put_escaped(out: &mut String, text: &str)
    ensures
        final(out)@ == escaped(old(out)@, text@),
{
    put_escaped_bytes(out, text.as_bytes());
}

/// Appends some bytes, escaped.
pub fn put_escaped_bytes(out: &mut String, bytes: &[u8])
    ensures
        final(out)@ == escaped_bytes(old(out)@, bytes@, bytes@.len()),
{
    let mut i: usize = 0;
    while i < bytes.len()
        invariant
            i <= bytes@.len(),
            out@ == escaped_bytes(old(out)@, bytes@, i as nat),
        decreases bytes@.len() - i,
    {
        let b: u8 = bytes[i];
        put(out, "\\");
        put(out, hex_text(b / 16));
        put(out, hex_text(b % 16));
        i = i + 1;
    }
}

/// How many bytes a text has.
pub fn byte_length(text: &str) -> (r: usize)
    ensures
        r == encode_utf8(text@).len(),
{
    text.as_bytes().len()
}

/// A copy of some bytes.
pub fn copy_of(bytes: &[u8]) -> (r: Vec<u8>)
    ensures
        r@ == bytes@,
{
    let mut out: Vec<u8> = Vec::new();
    let mut i: usize = 0;
    while i < bytes.len()
        invariant
            i <= bytes@.len(),
            out@ == bytes@.subrange(0, i as int),
        decreases bytes@.len() - i,
    {
        out.push(bytes[i]);
        i = i + 1;
        assert(out@ =~= bytes@.subrange(0, i as int));
    }
    assert(out@ =~= bytes@);
    out
}

/// The last `k` hexadecimal digits of `n`, behind what `o` says.
pub open spec fn hexadecimal(o: Seq<char>, n: u64, k: nat) -> Seq<char>
    decreases k,
{
    if k == 0 {
        o
    } else {
        hexadecimal(o, n / 16, (k - 1) as nat) + hex_digit((n % 16) as u8)
    }
}

/// Appends the last `k` hexadecimal digits of `n`.
pub fn put_hex(out: &mut String, n: u64, k: u32)
    ensures
        final(out)@ == hexadecimal(old(out)@, n, k as nat),
    decreases k,
{
    if k > 0 {
        put_hex(out, n / 16, k - 1);
        put(out, hex_text((n % 16) as u8));
    }
}

/// The texts agree up to place `k`, where the first ends or has the lesser
/// character.
pub open spec fn parts_at(a: Seq<char>, b: Seq<char>, k: int) -> bool {
    &&& 0 <= k <= a.len()
    &&& k < b.len()
    &&& forall|i: int| 0 <= i < k ==> #[trigger] a[i] == b[i]
    &&& k == a.len() || (a[k] as u32) < (b[k] as u32)
}

/// A text comes before another in the order of their characters.
pub open spec fn precedes(a: Seq<char>, b: Seq<char>) -> bool {
    exists|k: int| #[trigger] parts_at(a, b, k)
}

/// What comes before comes before what comes behind.
pub proof fn precedes_further(a: Seq<char>, b: Seq<char>, d: Seq<char>)
    requires
        precedes(a, b),
        precedes(b, d),
    ensures
        precedes(a, d),
{
    let j = choose|k: int| #[trigger] parts_at(a, b, k);
    let k = choose|k: int| #[trigger] parts_at(b, d, k);
    assert forall|i: int| 0 <= i < j && i < k implies #[trigger] a[i] == d[i] by {
        assert(a[i] == b[i] && b[i] == d[i]);
    }
    if j < k {
        assert(b[j] == d[j]);
        assert(parts_at(a, d, j));
    } else if k < j {
        assert(a[k] == b[k]);
        assert(parts_at(a, d, k));
    } else {
        assert(parts_at(a, d, k));
    }
}

/// Whether a text comes before another in the order of their characters.
pub fn comes_before(a: &str, b: &str) -> (r: bool)
    ensures
        r == precedes(a@, b@),
{
    let n: usize = a.unicode_len();
    let m: usize = b.unicode_len();
    let mut k: usize = 0;
    while k < n && k < m
        invariant
            k <= n,
            k <= m,
            n == a@.len(),
            m == b@.len(),
            forall|i: int| 0 <= i < k ==> #[trigger] a@[i] == b@[i],
        decreases n - k,
    {
        let x: char = a.get_char(k);
        let y: char = b.get_char(k);
        if x != y {
            let less = (x as u32) < (y as u32);
            proof {
                if less {
                    assert(parts_at(a@, b@, k as int));
                } else if precedes(a@, b@) {
                    let j = choose|j: int| #[trigger] parts_at(a@, b@, j);
                    if j > k {
                        assert(a@[k as int] == b@[k as int]);
                    }
                }
            }
            return less;
        }
        k = k + 1;
    }
    proof {
        if k < m {
            assert(parts_at(a@, b@, k as int));
        } else if precedes(a@, b@) {
            let j = choose|j: int| #[trigger] parts_at(a@, b@, j);
            assert(a@[j] == b@[j]);
        }
    }
    k < m
}

} // verus!
