//! LLVM assembly, as it is read.
//!
//! A text is read from a place on: words up to a blank, numbers in
//! decimal, types up to what may follow one, operands, labels of blocks.
//! A label ends in the number of its block.

use vstd::prelude::*;
use crate::llvm::{BinOp, CastOp, Pred};

verus! {

/// The text has the word at a place.
#[verifier::opaque]
pub open spec fn at(t: Seq<char>, p: int, w: Seq<char>) -> bool {
    0 <= p && p + w.len() <= t.len() && t.subrange(p, p + w.len()) == w
}

pub open spec fn is_digit(ch: char) -> bool {
    '0' <= ch && ch <= '9'
}

/// Where the digits from a place on end.
pub open spec fn digits_end(t: Seq<char>, p: int) -> int
    decreases t.len() - p,
{
    if 0 <= p < t.len() && is_digit(t[p]) {
        digits_end(t, p + 1)
    } else {
        p
    }
}

/// The number that some digits make up.
pub open spec fn number_in(t: Seq<char>, p: int, q: int) -> nat
    decreases q - p,
{
    if q <= p {
        0
    } else {
        (10 * number_in(t, p, q - 1) + (t[q - 1] as u32 - 48)) as nat
    }
}

/// The value of a hexadecimal digit.
pub open spec fn hex_value(ch: char) -> nat {
    if is_digit(ch) {
        (ch as u32 - 48) as nat
    } else {
        (ch as u32 - 55) as nat
    }
}

/// The number that some hexadecimal digits make up.
pub open spec fn hex_in(t: Seq<char>, p: int, q: int) -> nat
    decreases q - p,
{
    if q <= p {
        0
    } else {
        (16 * hex_in(t, p, q - 1) + hex_value(t[q - 1])) as nat
    }
}

/// The first place from `p` on where a character stands.
pub open spec fn until(t: Seq<char>, p: int, ch: char) -> int
    decreases t.len() - p,
{
    if 0 <= p < t.len() && t[p] != ch {
        until(t, p + 1, ch)
    } else {
        p
    }
}

/// Where a word ends: at a blank or at the end of its line.
pub open spec fn word_end(t: Seq<char>, p: int) -> int
    decreases t.len() - p,
{
    if 0 <= p < t.len() && t[p] != ' ' && t[p] != '\n' {
        word_end(t, p + 1)
    } else {
        p
    }
}

/// The word from a place on.
pub open spec fn word_at(t: Seq<char>, p: int) -> Seq<char> {
    t.subrange(p, word_end(t, p))
}

/// What may follow a type.
pub open spec fn ends_type(ch: char) -> bool {
    ch == ' ' || ch == ',' || ch == '\n' || ch == '(' || ch == ')'
}

/// Where a type ends: at what may follow one, outside of braces, brackets
/// and quotes.
pub open spec fn type_end(t: Seq<char>, p: int, depth: int, quoted: bool) -> int
    decreases t.len() - p,
{
    if p < 0 || p >= t.len() {
        p
    } else if quoted {
        type_end(t, p + 1, depth, t[p] != '"')
    } else if t[p] == '"' {
        type_end(t, p + 1, depth, true)
    } else if t[p] == '{' || t[p] == '[' {
        type_end(t, p + 1, depth + 1, false)
    } else if t[p] == '}' || t[p] == ']' {
        if depth == 0 {
            p
        } else {
            type_end(t, p + 1, depth - 1, false)
        }
    } else if depth == 0 && ends_type(t[p]) {
        p
    } else {
        type_end(t, p + 1, depth, false)
    }
}

/// The type from a place on, as it is spelled, and where it ends.
#[verifier::opaque]
pub open spec fn type_at(t: Seq<char>, p: int) -> (Seq<char>, int) {
    let q = type_end(t, p, 0, false);
    (t.subrange(p, q), q)
}

/// Where the escaped bytes from a place on end: each is a backslash and
/// two digits.
pub open spec fn escapes_end(t: Seq<char>, p: int) -> int
    decreases t.len() - p,
{
    if 0 <= p && p + 3 <= t.len() && t[p] == '\\' {
        escapes_end(t, p + 3)
    } else {
        p
    }
}

/// The number of the block that a label names, and where the label ends.
#[verifier::opaque]
pub open spec fn label_at(t: Seq<char>, p: int) -> Option<(nat, int)> {
    let q = escapes_end(t, p + 1);
    let e = digits_end(t, q + 1);
    if at(t, p, "\""@) && at(t, q, "."@) && q + 1 < e && at(t, e, "\""@) {
        Some((number_in(t, q + 1, e), e + 1))
    } else {
        None
    }
}

/// An operand as it is spelled.
pub enum Said {
    /// `%` and a letter and a number: a parameter, a result, a stack slot,
    /// or an address on the way.
    Local(char, nat),
    Number(nat),
    Minus(nat),
    /// A floating-point constant by its bits.
    Bits(nat),
    Null,
    Undef,
    Zero,
    Words(nat, nat, nat),
    /// The size of so many values of a type.
    Size(Seq<char>, nat),
    /// An address so many bytes past a global.
    Address(Seq<char>, nat),
}

/// A number from a place on.
#[verifier::opaque]
pub open spec fn number_at(t: Seq<char>, p: int) -> Option<(nat, int)> {
    let e = digits_end(t, p);
    if p < e {
        Some((number_in(t, p, e), e))
    } else {
        None
    }
}

/// The size of some values: the address of the one behind them, the first
/// one lying at null.
pub open spec fn size_at(t: Seq<char>, p: int) -> Option<(Said, int)> {
    let (a, q1) = type_at(t, p);
    let p2 = q1 + " getelementptr ("@.len();
    let (b, q2) = type_at(t, p2);
    let (c, q3) = type_at(t, q2 + 2);
    let p4 = q3 + " null, i32 "@.len();
    match number_at(t, p4) {
        Some((n, e)) => if at(t, q1, " getelementptr ("@) && at(t, q2, ", "@) && at(t, q3, " null, i32 "@)
            && at(t, e, ") to i64)"@) && a == b + "*"@ && c == a {
            Some((Said::Size(b, n), (e + ") to i64)"@.len()) as int))
        } else {
            None
        },
        None => None,
    }
}

/// An operand without its type, from a place on, and where it ends.
#[verifier::opaque]
pub open spec fn value_at(t: Seq<char>, p: int) -> Option<(Said, int)> {
    if !(0 <= p < t.len()) {
        None
    } else if t[p] == '%' {
        match number_at(t, p + 2) {
            Some((n, e)) => Some((Said::Local(t[p + 1], n), e)),
            None => None,
        }
    } else if at(t, p, "0x"@) {
        Some((Said::Bits(hex_in(t, p + 2, p + 18)), p + 18))
    } else if is_digit(t[p]) {
        match number_at(t, p) {
            Some((n, e)) => Some((Said::Number(n), e)),
            None => None,
        }
    } else if t[p] == '-' {
        match number_at(t, p + 1) {
            Some((n, e)) => Some((Said::Minus(n), e)),
            None => None,
        }
    } else if at(t, p, "null"@) {
        Some((Said::Null, p + 4))
    } else if at(t, p, "undef"@) {
        Some((Said::Undef, p + 5))
    } else if at(t, p, "zeroinitializer"@) {
        Some((Said::Zero, p + 15))
    } else if at(t, p, "[i64 "@) {
        match number_at(t, p + 5) {
            Some((x, a)) => match number_at(t, a + 6) {
                Some((y, b)) => match number_at(t, b + 6) {
                    Some((z, e)) => if at(t, a, ", i64 "@) && at(t, b, ", i64 "@) && at(t, e, "]"@) {
                        Some((Said::Words(x, y, z), e + 1))
                    } else {
                        None
                    },
                    None => None,
                },
                None => None,
            },
            None => None,
        }
    } else if at(t, p, "ptrtoint ("@) {
        size_at(t, p + 10)
    } else if at(t, p, "bitcast ("@) {
        let a = until(t, p, '@');
        let e = word_end(t, a);
        if at(t, e, " to i8*)"@) {
            Some((Said::Address(t.subrange(a, e), 0), e + 8))
        } else {
            None
        }
    } else if at(t, p, "getelementptr (i8, i8* bitcast ("@) {
        let a = until(t, p, '@');
        let e = word_end(t, a);
        match number_at(t, e + 14) {
            Some((n, q)) => if at(t, e, " to i8*), i64 "@) && at(t, q, ")"@) {
                Some((Said::Address(t.subrange(a, e), n), q + 1))
            } else {
                None
            },
            None => None,
        }
    } else {
        None
    }
}

/// An operand behind its type.
#[verifier::opaque]
pub open spec fn operand_at(t: Seq<char>, p: int) -> Option<(Seq<char>, Said, int)> {
    let (ty, q) = type_at(t, p);
    match value_at(t, q + 1) {
        Some((v, e)) => if at(t, q, " "@) {
            Some((ty, v, e))
        } else {
            None
        },
        None => None,
    }
}

/// The binary operator of a mnemonic.
#[verifier::opaque]
pub open spec fn bin_of(w: Seq<char>) -> Option<BinOp> {
    if w == "add"@ {
        Some(BinOp::Add)
    } else if w == "sub"@ {
        Some(BinOp::Sub)
    } else if w == "mul"@ {
        Some(BinOp::Mul)
    } else if w == "udiv"@ {
        Some(BinOp::UDiv)
    } else if w == "sdiv"@ {
        Some(BinOp::SDiv)
    } else if w == "urem"@ {
        Some(BinOp::URem)
    } else if w == "srem"@ {
        Some(BinOp::SRem)
    } else if w == "and"@ {
        Some(BinOp::And)
    } else if w == "or"@ {
        Some(BinOp::Or)
    } else if w == "xor"@ {
        Some(BinOp::Xor)
    } else if w == "shl"@ {
        Some(BinOp::Shl)
    } else if w == "lshr"@ {
        Some(BinOp::LShr)
    } else if w == "ashr"@ {
        Some(BinOp::AShr)
    } else if w == "fadd"@ {
        Some(BinOp::FAdd)
    } else if w == "fsub"@ {
        Some(BinOp::FSub)
    } else if w == "fmul"@ {
        Some(BinOp::FMul)
    } else if w == "fdiv"@ {
        Some(BinOp::FDiv)
    } else if w == "frem"@ {
        Some(BinOp::FRem)
    } else {
        None
    }
}

/// The predicate of a mnemonic.
#[verifier::opaque]
pub open spec fn pred_of(w: Seq<char>) -> Option<Pred> {
    if w == "eq"@ {
        Some(Pred::Eq)
    } else if w == "ne"@ {
        Some(Pred::Ne)
    } else if w == "ugt"@ {
        Some(Pred::Ugt)
    } else if w == "uge"@ {
        Some(Pred::Uge)
    } else if w == "ult"@ {
        Some(Pred::Ult)
    } else if w == "ule"@ {
        Some(Pred::Ule)
    } else if w == "sgt"@ {
        Some(Pred::Sgt)
    } else if w == "sge"@ {
        Some(Pred::Sge)
    } else if w == "slt"@ {
        Some(Pred::Slt)
    } else if w == "sle"@ {
        Some(Pred::Sle)
    } else if w == "oeq"@ {
        Some(Pred::Oeq)
    } else if w == "one"@ {
        Some(Pred::One)
    } else if w == "une"@ {
        Some(Pred::Une)
    } else if w == "ogt"@ {
        Some(Pred::Ogt)
    } else if w == "oge"@ {
        Some(Pred::Oge)
    } else if w == "olt"@ {
        Some(Pred::Olt)
    } else if w == "ole"@ {
        Some(Pred::Ole)
    } else if w == "uno"@ {
        Some(Pred::Uno)
    } else if w == "ord"@ {
        Some(Pred::Ord)
    } else {
        None
    }
}

/// The cast of a mnemonic.
#[verifier::opaque]
pub open spec fn cast_of(w: Seq<char>) -> Option<CastOp> {
    if w == "trunc"@ {
        Some(CastOp::Trunc)
    } else if w == "zext"@ {
        Some(CastOp::ZExt)
    } else if w == "sext"@ {
        Some(CastOp::SExt)
    } else if w == "fptrunc"@ {
        Some(CastOp::FPTrunc)
    } else if w == "fpext"@ {
        Some(CastOp::FPExt)
    } else if w == "sitofp"@ {
        Some(CastOp::SIToFP)
    } else if w == "uitofp"@ {
        Some(CastOp::UIToFP)
    } else if w == "bitcast"@ {
        Some(CastOp::BitCast)
    } else if w == "ptrtoint"@ {
        Some(CastOp::PtrToInt)
    } else if w == "inttoptr"@ {
        Some(CastOp::IntToPtr)
    } else {
        None
    }
}

/// What a definition defines.
pub enum What {
    Bin(BinOp, Seq<char>, Said, Said),
    IntTest(Pred, Seq<char>, Said, Said),
    FloatTest(Pred, Seq<char>, Said, Said),
    FNeg(Seq<char>, Said),
    /// The condition, what is taken where it is 1, and what is taken
    /// elsewhere, each behind its type.
    Select((Seq<char>, Said), (Seq<char>, Said), (Seq<char>, Said)),
    /// From a type, to a type.
    Cast(CastOp, Seq<char>, Said, Seq<char>),
    Extract(Seq<char>, Said, nat),
    /// The aggregate, the new part, and its place.
    Insert((Seq<char>, Said), (Seq<char>, Said), nat),
    /// The type, and the address behind its own type.
    Load(Seq<char>, (Seq<char>, Said)),
    Alloca(Seq<char>),
    /// The type, the address and the indices.
    Gep(bool, Seq<char>, (Seq<char>, Said), Seq<(Seq<char>, Said)>),
    /// The result type, the callee and the arguments.
    Call(Seq<char>, Seq<char>, Seq<(Seq<char>, Said)>),
    /// Values, each with the block that it comes from.
    Phi(Seq<char>, Seq<(Said, nat)>),
    Freeze(Seq<char>),
}

/// A line of a body.
pub enum Line {
    /// A letter and a number name what is defined.
    Define(char, nat, What),
    Call(Seq<char>, Seq<char>, Seq<(Seq<char>, Said)>),
    /// The value, and the address it goes to.
    Store((Seq<char>, Said), (Seq<char>, Said)),
    Br(nat),
    /// The condition, the block it goes to where that is 1, and the one it
    /// goes to elsewhere.
    CondBr((Seq<char>, Said), nat, nat),
    /// The word, the block for any other word, and the arms.
    Switch((Seq<char>, Said), nat, Seq<(Seq<char>, nat, nat)>),
    Ret(Seq<char>, Said),
    RetVoid,
    Unreachable,
}

/// An operand behind its type and another one of the same type, up to the
/// end of the line.
#[verifier::opaque]
pub open spec fn pair_at(t: Seq<char>, p: int) -> Option<(Seq<char>, Said, Said, int)> {
    match operand_at(t, p) {
        Some((ty, a, q)) => match value_at(t, q + 2) {
            Some((b, e)) => if at(t, q, ", "@) && at(t, e, "\n"@) {
                Some((ty, a, b, e + 1))
            } else {
                None
            },
            None => None,
        },
        None => None,
    }
}

/// Operands behind their types, up to what closes the list. Each but the
/// first stands behind a comma.
#[verifier::opaque]
pub open spec fn operands_at(t: Seq<char>, p: int, first: bool, close: Seq<char>) -> Option<
    (Seq<(Seq<char>, Said)>, int),
>
    decreases t.len() - p,
{
    if at(t, p, close) {
        Some((Seq::empty(), p + close.len()))
    } else {
        let q = if first {
            p
        } else {
            p + 2
        };
        match operand_at(t, q) {
            Some((ty, v, e)) => if (first || at(t, p, ", "@)) && 0 <= p < e <= t.len() {
                match operands_at(t, e, false, close) {
                    Some((rest, end)) => Some((seq![(ty, v)] + rest, end)),
                    None => None,
                }
            } else {
                None
            },
            None => None,
        }
    }
}

/// The result type, the callee and the arguments of a call.
#[verifier::opaque]
pub open spec fn call_at(t: Seq<char>, p: int) -> Option<
    (Seq<char>, Seq<char>, Seq<(Seq<char>, Said)>, int),
> {
    let (ty, q) = type_at(t, p);
    let a = until(t, q, '(');
    match operands_at(t, a + 1, true, ")\n"@) {
        Some((args, e)) => if at(t, q, " "@) && q < a {
            Some((ty, t.subrange(q + 1, a), args, e))
        } else {
            None
        },
        None => None,
    }
}

/// The values of a phi, each with the block that it comes from, up to the
/// end of the line.
#[verifier::opaque]
pub open spec fn edges_at(t: Seq<char>, p: int, first: bool) -> Option<(Seq<(Said, nat)>, int)>
    decreases t.len() - p,
{
    if at(t, p, "\n"@) {
        Some((Seq::empty(), p + 1))
    } else {
        let q = if first {
            p + 3
        } else {
            p + 4
        };
        match value_at(t, q) {
            Some((v, a)) => match label_at(t, a + 3) {
                Some((b, e)) => if at(
                    t,
                    p,
                    if first {
                        " [ "@
                    } else {
                        ", [ "@
                    },
                ) && at(t, a, ", %"@) && at(t, e, " ]"@) && 0 <= p < e + 2 <= t.len() {
                    match edges_at(t, e + 2, false) {
                        Some((rest, end)) => Some((seq![(v, b)] + rest, end)),
                        None => None,
                    }
                } else {
                    None
                },
                None => None,
            },
            None => None,
        }
    }
}

/// The arms of a switch: a type, a number and a block each.
#[verifier::opaque]
pub open spec fn arms_at(t: Seq<char>, p: int) -> Option<(Seq<(Seq<char>, nat, nat)>, int)>
    decreases t.len() - p,
{
    if at(t, p, "  ]\n"@) {
        Some((Seq::empty(), p + 4))
    } else {
        let (ty, q) = type_at(t, p + 4);
        match number_at(t, q + 1) {
            Some((n, a)) => match label_at(t, a + 9) {
                Some((b, e)) => if at(t, p, "    "@) && at(t, q, " "@) && at(t, a, ", label %"@) && at(
                    t,
                    e,
                    "\n"@,
                ) && 0 <= p < e + 1 <= t.len() {
                    match arms_at(t, e + 1) {
                        Some((rest, end)) => Some((seq![(ty, n, b)] + rest, end)),
                        None => None,
                    }
                } else {
                    None
                },
                None => None,
            },
            None => None,
        }
    }
}

/// What a definition defines, from behind its mnemonic on.
pub open spec fn told_at(t: Seq<char>, w: Seq<char>, p: int) -> Option<(What, int)> {
    if bin_of(w) is Some {
        match pair_at(t, p) {
            Some((ty, a, b, e)) => Some((What::Bin(bin_of(w)->0, ty, a, b), e)),
            None => None,
        }
    } else if w == "icmp"@ || w == "fcmp"@ {
        let q = word_end(t, p);
        match (pred_of(t.subrange(p, q)), pair_at(t, q + 1)) {
            (Some(pred), Some((ty, a, b, e))) => Some(
                (
                    if w == "icmp"@ {
                        What::IntTest(pred, ty, a, b)
                    } else {
                        What::FloatTest(pred, ty, a, b)
                    },
                    e,
                ),
            ),
            _ => None,
        }
    } else if cast_of(w) is Some {
        match operand_at(t, p) {
            Some((ty, v, q)) => {
                let e = until(t, q + 4, '\n');
                if at(t, q, " to "@) && at(t, e, "\n"@) {
                    Some((What::Cast(cast_of(w)->0, ty, v, t.subrange(q + 4, e)), e + 1))
                } else {
                    None
                }
            },
            None => None,
        }
    } else if w == "call"@ {
        match call_at(t, p) {
            Some((ty, callee, args, e)) => Some((What::Call(ty, callee, args), e)),
            None => None,
        }
    } else if w == "phi"@ {
        let (ty, q) = type_at(t, p);
        match edges_at(t, q, true) {
            Some((edges, e)) => Some((What::Phi(ty, edges), e)),
            None => None,
        }
    } else {
        rarer_at(t, w, p)
    }
}

/// The other definitions.
pub open spec fn rarer_at(t: Seq<char>, w: Seq<char>, p: int) -> Option<(What, int)> {
    if w == "fneg"@ {
        match operand_at(t, p) {
            Some((ty, v, e)) => if at(t, e, "\n"@) {
                Some((What::FNeg(ty, v), e + 1))
            } else {
                None
            },
            None => None,
        }
    } else if w == "freeze"@ {
        let (ty, q) = type_at(t, p);
        if at(t, q, " undef\n"@) {
            Some((What::Freeze(ty), q + 7))
        } else {
            None
        }
    } else if w == "alloca"@ {
        let (ty, q) = type_at(t, p);
        if at(t, q, "\n"@) {
            Some((What::Alloca(ty), q + 1))
        } else {
            None
        }
    } else if w == "load"@ {
        let (ty, q) = type_at(t, p);
        match operand_at(t, q + 2) {
            Some((pty, v, e)) => if at(t, q, ", "@) && at(t, e, "\n"@) {
                Some((What::Load(ty, (pty, v)), e + 1))
            } else {
                None
            },
            None => None,
        }
    } else if w == "extractvalue"@ {
        match operand_at(t, p) {
            Some((ty, v, q)) => match number_at(t, q + 2) {
                Some((n, e)) => if at(t, q, ", "@) && at(t, e, "\n"@) {
                    Some((What::Extract(ty, v, n), e + 1))
                } else {
                    None
                },
                None => None,
            },
            None => None,
        }
    } else if w == "insertvalue"@ {
        match operand_at(t, p) {
            Some((ty, v, q)) => match operand_at(t, q + 2) {
                Some((fty, x, r)) => match number_at(t, r + 2) {
                    Some((n, e)) => if at(t, q, ", "@) && at(t, r, ", "@) && at(t, e, "\n"@) {
                        Some((What::Insert((ty, v), (fty, x), n), e + 1))
                    } else {
                        None
                    },
                    None => None,
                },
                None => None,
            },
            None => None,
        }
    } else if w == "select"@ {
        match operand_at(t, p) {
            Some((pty, v, q)) => match operand_at(t, q + 2) {
                Some((xty, x, r)) => match operand_at(t, r + 2) {
                    Some((yty, y, e)) => if at(t, q, ", "@) && at(t, r, ", "@) && at(t, e, "\n"@) {
                        Some((What::Select((pty, v), (xty, x), (yty, y)), e + 1))
                    } else {
                        None
                    },
                    None => None,
                },
                None => None,
            },
            None => None,
        }
    } else if w == "getelementptr"@ {
        let inbounds = at(t, p, "inbounds "@);
        let (ty, q) = type_at(
            t,
            if inbounds {
                p + 9
            } else {
                p
            },
        );
        match operand_at(t, q + 2) {
            Some((pty, v, r)) => match operands_at(t, r, false, "\n"@) {
                Some((indices, e)) => if at(t, q, ", "@) {
                    Some((What::Gep(inbounds, ty, (pty, v), indices), e))
                } else {
                    None
                },
                None => None,
            },
            None => None,
        }
    } else {
        None
    }
}

/// A line that defines nothing, from behind its mnemonic on.
pub open spec fn done_at(t: Seq<char>, w: Seq<char>, p: int) -> Option<(Line, int)> {
    if w == "br"@ {
        if at(t, p, "label %"@) {
            match label_at(t, p + 7) {
                Some((b, e)) => if at(t, e, "\n"@) {
                    Some((Line::Br(b), e + 1))
                } else {
                    None
                },
                None => None,
            }
        } else {
            match operand_at(t, p) {
                Some((ty, v, q)) => match label_at(t, q + 9) {
                    Some((yes, r)) => match label_at(t, r + 9) {
                        Some((no, e)) => if at(t, q, ", label %"@) && at(t, r, ", label %"@) && at(
                            t,
                            e,
                            "\n"@,
                        ) {
                            Some((Line::CondBr((ty, v), yes, no), e + 1))
                        } else {
                            None
                        },
                        None => None,
                    },
                    None => None,
                },
                None => None,
            }
        }
    } else if w == "switch"@ {
        match operand_at(t, p) {
            Some((ty, v, q)) => match label_at(t, q + 9) {
                Some((other, r)) => match arms_at(t, r + 3) {
                    Some((arms, e)) => if at(t, q, ", label %"@) && at(t, r, " [\n"@) {
                        Some((Line::Switch((ty, v), other, arms), e))
                    } else {
                        None
                    },
                    None => None,
                },
                None => None,
            },
            None => None,
        }
    } else if w == "ret"@ {
        if at(t, p, "void\n"@) {
            Some((Line::RetVoid, p + 5))
        } else {
            match operand_at(t, p) {
                Some((ty, v, e)) => if at(t, e, "\n"@) {
                    Some((Line::Ret(ty, v), e + 1))
                } else {
                    None
                },
                None => None,
            }
        }
    } else if w == "store"@ {
        match operand_at(t, p) {
            Some((ty, v, q)) => match operand_at(t, q + 2) {
                Some((pty, x, e)) => if at(t, q, ", "@) && at(t, e, "\n"@) {
                    Some((Line::Store((ty, v), (pty, x)), e + 1))
                } else {
                    None
                },
                None => None,
            },
            None => None,
        }
    } else if w == "call"@ {
        match call_at(t, p) {
            Some((ty, callee, args, e)) => Some((Line::Call(ty, callee, args), e)),
            None => None,
        }
    } else if w == "unreachable"@ {
        Some((Line::Unreachable, p))
    } else {
        None
    }
}

/// A line, from a place on.
#[verifier::opaque]
pub open spec fn line_at(t: Seq<char>, p: int) -> Option<(Line, int)> {
    if !at(t, p, "  "@) {
        None
    } else if at(t, p + 2, "%"@) {
        match number_at(t, p + 4) {
            Some((n, q)) => if at(t, q, " = "@) {
                let w = word_at(t, q + 3);
                match told_at(t, w, q + 4 + w.len()) {
                    Some((what, e)) => Some((Line::Define(t[p + 3], n, what), e)),
                    None => None,
                }
            } else {
                None
            },
            None => None,
        }
    } else {
        let w = word_at(t, p + 2);
        done_at(t, w, p + 3 + w.len())
    }
}

/// So many lines, from a place on.
pub open spec fn lines_at(t: Seq<char>, p: int, k: nat) -> Option<(Seq<Line>, int)>
    decreases k,
{
    if k == 0 {
        Some((Seq::empty(), p))
    } else {
        match line_at(t, p) {
            Some((line, q)) => match lines_at(t, q, (k - 1) as nat) {
                Some((rest, e)) => Some((seq![line] + rest, e)),
                None => None,
            },
            None => None,
        }
    }
}

} // verus!
