//! The wire order of enums whose tags the runtime stamps as raw bytes.
//!
//! The runtime writes the wire bytes of these enums straight into message
//! payloads, and emitted code reads them as tags. That only works while a
//! variant's tag is its wire byte, so a declaration that breaks the order
//! is refused.

use vstd::prelude::*;
use crate::ctx::EmitContext;
use crate::error::{says, LlvmError};
use crate::ir::IREnumVariant;
use crate::text::{concat3, concat5, decimal, same, starts_with, u64_text, usize_text};

verus! {

/// What the symbol of every `Option` begins with.
pub open spec fn option_prefix() -> Seq<char> {
    "Global.Option_$"@
}

/// An enum with a wire order.
#[derive(Clone, Copy, Debug, PartialEq, Eq, Structural)]
pub enum WireEnum {
    ExitReason,
    Lifecycle,
    OptionTag,
    Ready,
}

/// The variants of a wire enum, in the order of their wire bytes.
pub open spec fn wire_order(e: WireEnum) -> Seq<Seq<char>> {
    match e {
        WireEnum::Ready => seq!["Read"@, "Write"@, "Error"@],
        WireEnum::ExitReason => seq!["Normal"@, "Shutdown"@, "Killed"@, "Crashed"@],
        WireEnum::Lifecycle => seq!["Shutdown"@, "Interrupt"@, "Reload"@],
        WireEnum::OptionTag => seq!["Some"@, "None"@],
    }
}

/// The wire order, as diagnostics give it.
pub open spec fn wire_order_text(e: WireEnum) -> Seq<char> {
    match e {
        WireEnum::Ready => "[\"Read\", \"Write\", \"Error\"]"@,
        WireEnum::ExitReason => "[\"Normal\", \"Shutdown\", \"Killed\", \"Crashed\"]"@,
        WireEnum::Lifecycle => "[\"Shutdown\", \"Interrupt\", \"Reload\"]"@,
        WireEnum::OptionTag => "[\"Some\", \"None\"]"@,
    }
}

/// The wire enum that a symbol names. Every instance of `Option` is one.
pub open spec fn wire_enum_of(name: Seq<char>) -> Option<WireEnum> {
    if option_prefix().is_prefix_of(name) {
        Some(WireEnum::OptionTag)
    } else if name == "Global.IO.Ready"@ {
        Some(WireEnum::Ready)
    } else if name == "Global.Process.ExitReason"@ {
        Some(WireEnum::ExitReason)
    } else if name == "Global.Process.Lifecycle"@ {
        Some(WireEnum::Lifecycle)
    } else {
        None
    }
}

/// The variants of a wire enum, in wire order.
pub fn wire_names(e: WireEnum) -> (r: Vec<&'static str>)
    ensures
        names(r@) == wire_order(e),
{
    let mut out: Vec<&'static str> = Vec::new();
    match e {
        WireEnum::Ready => {
            out.push("Read");
            out.push("Write");
            out.push("Error");
        },
        WireEnum::ExitReason => {
            out.push("Normal");
            out.push("Shutdown");
            out.push("Killed");
            out.push("Crashed");
        },
        WireEnum::Lifecycle => {
            out.push("Shutdown");
            out.push("Interrupt");
            out.push("Reload");
        },
        WireEnum::OptionTag => {
            out.push("Some");
            out.push("None");
        },
    }
    assert(names(out@) =~= wire_order(e));
    out
}

/// The wire order, as diagnostics give it.
pub fn wire_names_text(e: WireEnum) -> (r: &'static str)
    ensures
        r@ == wire_order_text(e),
{
    match e {
        WireEnum::Ready => "[\"Read\", \"Write\", \"Error\"]",
        WireEnum::ExitReason => "[\"Normal\", \"Shutdown\", \"Killed\", \"Crashed\"]",
        WireEnum::Lifecycle => "[\"Shutdown\", \"Interrupt\", \"Reload\"]",
        WireEnum::OptionTag => "[\"Some\", \"None\"]",
    }
}

/// The wire enum that a symbol names.
pub fn wire_enum(name: &str) -> (r: Option<WireEnum>)
    ensures
        r == wire_enum_of(name@),
{
    if starts_with(name, "Global.Option_$") {
        Some(WireEnum::OptionTag)
    } else if same(name, "Global.IO.Ready") {
        Some(WireEnum::Ready)
    } else if same(name, "Global.Process.ExitReason") {
        Some(WireEnum::ExitReason)
    } else if same(name, "Global.Process.Lifecycle") {
        Some(WireEnum::Lifecycle)
    } else {
        None
    }
}

/// Some names as texts.
pub open spec fn names(s: Seq<&str>) -> Seq<Seq<char>> {
    Seq::new(s.len(), |i: int| s[i]@)
}

/// Variant `i` keeps its wire byte: it has the name and the tag.
pub open spec fn keeps(variants: Seq<IREnumVariant>, expected: Seq<Seq<char>>, i: int) -> bool {
    variants[i].name@ == expected[i] && variants[i].tag.0 as int == i
}

/// The declaration is exactly the wire order.
pub open spec fn in_wire_order(variants: Seq<IREnumVariant>, expected: Seq<Seq<char>>) -> bool {
    &&& variants.len() == expected.len()
    &&& forall|i: int| 0 <= i < variants.len() ==> #[trigger] keeps(variants, expected, i)
}

/// What is said of a variant that does not keep its wire byte.
pub open spec fn divergence(variants: Seq<IREnumVariant>, expected: Seq<Seq<char>>, i: int) -> Seq<
    char,
> {
    "variant at position "@ + decimal(i as nat) + " is `"@ + (variants[i].name@ + "` (tag "@
        + decimal(variants[i].tag.0 as nat)) + ("), wire byte "@ + decimal(i as nat) + " means `"@
        + expected[i] + "`"@)
}

/// What is said of a wrong number of variants.
pub open spec fn wrong_count(declared: nat, expected: nat) -> Seq<char> {
    decimal(declared) + " variant(s) declared, wire catalog has "@ + decimal(expected)
}

/// `message` describes the first way in which the declaration diverges
/// from the wire order.
pub open spec fn describes(
    variants: Seq<IREnumVariant>,
    expected: Seq<Seq<char>>,
    message: Seq<char>,
) -> bool {
    if variants.len() != expected.len() {
        message == wrong_count(variants.len(), expected.len())
    } else {
        exists|i: int|
            {
                &&& 0 <= i < variants.len()
                &&& !#[trigger] keeps(variants, expected, i)
                &&& forall|j: int| 0 <= j < i ==> #[trigger] keeps(variants, expected, j)
                &&& message == divergence(variants, expected, i)
            }
    }
}

/// Describes the first divergence from the wire order, or nothing where
/// the declaration keeps it exactly.
pub fn wire_order_mismatch(variants: &[IREnumVariant], expected: &[&str]) -> (r: Option<String>)
    ensures
        match r {
            None => in_wire_order(variants@, names(expected@)),
            Some(m) => !in_wire_order(variants@, names(expected@)) && describes(
                variants@,
                names(expected@),
                m@,
            ),
        },
{
    if variants.len() != expected.len() {
        return Some(
            concat3(
                usize_text(variants.len()).as_str(),
                " variant(s) declared, wire catalog has ",
                usize_text(expected.len()).as_str(),
            ),
        );
    }
    let mut i: usize = 0;
    while i < variants.len()
        invariant
            i <= variants@.len(),
            variants@.len() == expected@.len(),
            forall|j: int| 0 <= j < i ==> #[trigger] keeps(variants@, names(expected@), j),
        decreases variants@.len() - i,
    {
        let variant = &variants[i];
        if !same(variant.name.as_str(), expected[i]) || variant.tag.0 as usize != i {
            assert(!keeps(variants@, names(expected@), i as int));
            let at = usize_text(i);
            let first = concat3("variant at position ", at.as_str(), " is `");
            let second = concat3(
                variant.name.as_str(),
                "` (tag ",
                u64_text(variant.tag.0 as u64).as_str(),
            );
            let third = concat5("), wire byte ", at.as_str(), " means `", expected[i], "`");
            let message = concat3(first.as_str(), second.as_str(), third.as_str());
            assert(message@ == divergence(variants@, names(expected@), i as int));
            return Some(message);
        }
        assert(keeps(variants@, names(expected@), i as int));
        i = i + 1;
    }
    None
}

/// The enum keeps its wire order, where it has one.
pub open spec fn keeps_contract(c: &EmitContext, i: int) -> bool {
    wire_enum_of(c.mangled(c.enums@[i].symbol)) matches Some(e) ==> in_wire_order(
        c.enums@[i].variants@,
        wire_order(e),
    )
}

/// Every declared enum keeps its wire order.
pub open spec fn wire_contract(c: &EmitContext) -> bool {
    forall|i: int| 0 <= i < c.enums@.len() ==> #[trigger] keeps_contract(c, i)
}

/// What is said of an enum that breaks its wire order.
pub open spec fn broken_contract(name: Seq<char>, mismatch: Seq<char>, e: WireEnum) -> Seq<char> {
    "enum `"@ + name + "` breaks its wire contract: "@ + (mismatch
        + ". The runtime stamps these variants as raw wire bytes, so the declaration must keep the order cataloged in design/ABI.md (expected "@
        + wire_order_text(e)) + ")"@
}

/// What is said of the first declared enum that breaks its wire order.
pub open spec fn contract_fault(c: &EmitContext, err: LlvmError) -> bool {
    exists|i: int, e: WireEnum, m: Seq<char>|
        {
            &&& 0 <= i < c.enums@.len()
            &&& forall|j: int| 0 <= j < i ==> #[trigger] keeps_contract(c, j)
            &&& wire_enum_of(c.mangled(c.enums@[i].symbol)) == Some(e)
            &&& !in_wire_order(c.enums@[i].variants@, wire_order(e))
            &&& #[trigger] describes(c.enums@[i].variants@, wire_order(e), m)
            &&& says(err, broken_contract(c.mangled(c.enums@[i].symbol), m, e))
        }
}

/// Refuses the first declared enum that breaks its wire order. Enums that
/// the program does not declare are not missed.
pub fn assert_wire_enum_order(c: &EmitContext) -> (r: Result<(), LlvmError>)
    ensures
        match r {
            Ok(()) => wire_contract(c),
            Err(err) => contract_fault(c, err),
        },
        r is Ok <==> wire_contract(c),
        r matches Err(err) ==> err is Codegen,
{
    let mut i: usize = 0;
    while i < c.enums.len()
        invariant
            i <= c.enums@.len(),
            forall|j: int| 0 <= j < i ==> #[trigger] keeps_contract(c, j),
        decreases c.enums@.len() - i,
    {
        let name = c.name_of(c.enums[i].symbol);
        match wire_enum(name) {
            Some(e) => {
                let expected = wire_names(e);
                match wire_order_mismatch(c.enums[i].variants.as_slice(), expected.as_slice()) {
                    Some(mismatch) => {
                        let first = concat3("enum `", name, "` breaks its wire contract: ");
                        let second = concat3(
                            mismatch.as_str(),
                            ". The runtime stamps these variants as raw wire bytes, so the declaration must keep the order cataloged in design/ABI.md (expected ",
                            wire_names_text(e),
                        );
                        let err = LlvmError::Codegen(
                            concat3(first.as_str(), second.as_str(), ")"),
                        );
                        assert(describes(c.enums@[i as int].variants@, wire_order(e), mismatch@));
                        assert(says(
                            err,
                            broken_contract(c.mangled(c.enums@[i as int].symbol), mismatch@, e),
                        ));
                        assert(!keeps_contract(c, i as int));
                        return Err(err);
                    },
                    None => {},
                }
            },
            None => {},
        }
        assert(keeps_contract(c, i as int));
        i = i + 1;
    }
    Ok(())
}

/// Two variants of a declaration in wire order never share a tag, and the
/// tag of every variant is its place.
pub proof fn wire_tags_are_places(variants: Seq<IREnumVariant>, expected: Seq<Seq<char>>, i: int, j: int)
    requires
        in_wire_order(variants, expected),
        0 <= i < j < variants.len(),
    ensures
        variants[i].tag.0 as int == i,
        variants[i].tag != variants[j].tag,
{
    assert(keeps(variants, expected, i));
    assert(keeps(variants, expected, j));
}

} // verus!
