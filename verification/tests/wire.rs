use koja_ir_llvm::ir::{IREnumVariant, IRVariantPayload, IRVariantTag};
use koja_ir_llvm::layout::wire_contract::wire_order_mismatch;

fn variant(name: &str, tag: u8) -> IREnumVariant {
    IREnumVariant {
        name: name.to_string(),
        payload: IRVariantPayload::Unit,
        tag: IRVariantTag(tag),
    }
}

#[test]
fn matching_wire_order_passes() {
    let variants = [variant("Read", 0), variant("Write", 1), variant("Error", 2)];
    assert_eq!(wire_order_mismatch(&variants, &["Read", "Write", "Error"]), None);
}

#[test]
fn reordered_variants_are_reported() {
    let variants = [variant("Write", 0), variant("Read", 1), variant("Error", 2)];
    let mismatch = wire_order_mismatch(&variants, &["Read", "Write", "Error"]);
    assert!(mismatch.unwrap().contains("position 0"));
}

#[test]
fn added_variant_is_reported() {
    let variants = [
        variant("Read", 0),
        variant("Write", 1),
        variant("Error", 2),
        variant("Hangup", 3),
    ];
    let mismatch = wire_order_mismatch(&variants, &["Read", "Write", "Error"]);
    assert!(mismatch.unwrap().contains("wire catalog has 3"));
}
