//! The parts of a compile on their own: names, paths, orders, layouts and
//! what LLVM is asked.

use koja_ir_llvm::ctx::{Declared, EmitContext};
use koja_ir_llvm::debug::{display_name, skip_to_dollar, split_path, strip_generic_args, without_package};
use koja_ir_llvm::emit::blocks::{block_successors, reachable_blocks};
use koja_ir_llvm::error::codegen_err;
use koja_ir_llvm::function::{
    bare_name, debuggable_def_location, declare_function, function_has_tail_call, function_signature,
    is_param_acquire, llvm_name,
};
use koja_ir_llvm::ir::{
    BranchTarget, FunctionKind, IRBasicBlock, IRBlockId, IREnumDecl, IREnumVariant, IRForeignAttrs,
    IRFunction, IRFunctionParam, IRInstruction, IRLocalId, IRSourceDef, IRStructDecl, IRStructField, IRSymbol,
    IRTerminator, IRType, IRUnionDecl, IRVariantPayload, IRVariantTag, ValueId,
};
use koja_ir_llvm::layout::enum_order::{build_enum_index, enums_in_dependency_order, inline_types};
use koja_ir_llvm::layout::structs::define_struct_body;
use koja_ir_llvm::layout::topo::order;
use koja_ir_llvm::layout::unions::define_union_body;
use koja_ir_llvm::llvm::{Body, Inst, LType, Val};
use koja_ir_llvm::native::{
    has_llvm_name, measure, measured_size, measuring, pinned, verification_failure, verified_module,
    verify_module,
};
use koja_ir_llvm::print::module::print_module;
use koja_ir_llvm::program::{emit_llvm_ir, lower_measured, measure_types, take_size, IRProgram};
use koja_ir_llvm::text::{byte_length, comes_before, put_escaped, put_hex, same, starts_with, u64_text};
use koja_ir_llvm::types::{ir_basic_type, is_signed, value_basic_type, width};
use koja_ir_llvm::{CompileOptions, LlvmError, OptLevel, TargetCpu};

fn context(symbols: &[&str]) -> EmitContext {
    EmitContext {
        symbols: symbols.iter().map(|s| s.to_string()).collect(),
        types: Vec::new(),
        tuples: Vec::new(),
        signatures: Vec::new(),
        structs: Vec::new(),
        enums: Vec::new(),
        unions: Vec::new(),
        envs: Vec::new(),
        closures: Vec::new(),
        glue: Vec::new(),
        declared: Vec::new(),
        measured: Vec::new(),
    }
}

fn function(symbol: usize, kind: FunctionKind, params: &[IRType], return_type: IRType) -> IRFunction {
    IRFunction {
        blocks: Vec::new(),
        def_location: None,
        kind,
        params: params
            .iter()
            .enumerate()
            .map(|(i, ty)| IRFunctionParam { id: ValueId(i as u32), local_id: IRLocalId(i as u32), ty: *ty })
            .collect(),
        return_type,
        symbol: IRSymbol(symbol),
    }
}

#[test]
fn generic_arguments_are_stripped() {
    assert_eq!(strip_generic_args("List.append"), "List.append");
    assert_eq!(strip_generic_args("List_$Int$.append"), "List.append");
    assert_eq!(strip_generic_args("Map_$String.Int$.put"), "Map.put");
    assert_eq!(strip_generic_args(""), "");
    let once = strip_generic_args("Option_$List_$Int$$.map");
    assert!(!once.contains('$'));
    assert_eq!(strip_generic_args(&once), once);
}

#[test]
fn a_dollar_is_skipped_to() {
    assert_eq!(skip_to_dollar("ab$cd$", 0), 3);
    assert_eq!(skip_to_dollar("ab$cd$", 3), 6);
    assert_eq!(skip_to_dollar("abcd", 1), 4);
    assert_eq!(skip_to_dollar("", 0), 0);
}

#[test]
fn display_names_leave_out_the_package() {
    assert_eq!(without_package("app.main"), "main");
    assert_eq!(without_package("main"), "main");
    let c = context(&["app.Queue_$Int$.push", "plain", "Global.Option_$Int$.unwrap", "pbt.crash"]);
    assert_eq!(display_name(&c, IRSymbol(0)), "Queue.push");
    assert_eq!(display_name(&c, IRSymbol(1)), "plain");
    assert_eq!(display_name(&c, IRSymbol(2)), "Option.unwrap");
    assert_eq!(display_name(&c, IRSymbol(3)), "crash");
}

#[test]
fn paths_split_like_the_standard_library() {
    for path in [
        "src/main.kj",
        "/tmp/a/b.kj",
        "main.kj",
        "/main.kj",
        "a/b/c/d.kj",
        "./x.kj",
        "a//b.kj",
        "dir/sub/",
    ] {
        let p = std::path::Path::new(path);
        let file = p.file_name().unwrap().to_str().unwrap();
        let parent = p.parent().unwrap().to_str().unwrap();
        let (directory, name) = split_path(path);
        assert_eq!(name, file, "{path}");
        if parent.is_empty() {
            assert!(directory == "." || directory.is_empty(), "{path}: {directory}");
        } else {
            assert_eq!(directory, parent, "{path}");
        }
    }
}

#[test]
fn functions_link_under_their_names() {
    let c = context(&["app.main", "Global.C.puts"]);
    let main = function(0, FunctionKind::Regular, &[], IRType::Unit);
    assert_eq!(llvm_name(&c, &main), "app.main");
    let bare = function(1, FunctionKind::Foreign(IRForeignAttrs { link_name: None }), &[], IRType::Unit);
    assert_eq!(llvm_name(&c, &bare), "puts");
    let named = FunctionKind::Foreign(IRForeignAttrs { link_name: Some("fputs".to_string()) });
    assert_eq!(llvm_name(&c, &function(1, named, &[], IRType::Unit)), "fputs");
    assert_eq!(bare_name("a.b.c"), "c");
    assert_eq!(bare_name("c"), "c");
}

#[test]
fn signatures_follow_the_kind_of_function() {
    let plain = function(0, FunctionKind::Regular, &[IRType::Int8, IRType::String], IRType::Bool);
    assert_eq!(function_signature(&plain), (vec![LType::I8, LType::Ptr], LType::I1));
    let unit = function(0, FunctionKind::Regular, &[], IRType::Unit);
    assert_eq!(function_signature(&unit), (vec![], LType::Void));
    let closure = function(0, FunctionKind::Closure { env: 0 }, &[IRType::Int64], IRType::Int64);
    assert_eq!(function_signature(&closure), (vec![LType::Ptr, LType::I64], LType::I64));
}

#[test]
fn declarations_are_found_by_symbol() {
    let mut c = context(&["app.a", "app.b"]);
    let a = function(0, FunctionKind::Regular, &[IRType::Int64], IRType::Int64);
    let b = function(1, FunctionKind::Foreign(IRForeignAttrs { link_name: None }), &[], IRType::Float64);
    assert_eq!(declare_function(&mut c, &a), 0);
    assert_eq!(declare_function(&mut c, &b), 1);
    assert_eq!(c.declared_function(IRSymbol(1)), Some(1));
    assert_eq!(c.declared_function(IRSymbol(2)), None);
    assert_eq!(c.declared_named("app.a"), Some(0));
    assert!(c.declared[0].defined);
    assert!(!c.declared[1].defined);
    assert!(c.declared[1].foreign_float);
}

#[test]
fn only_written_functions_have_a_place() {
    let at = |file: &str| Some(IRSourceDef { file: file.to_string(), line: 3 });
    let mut f = function(0, FunctionKind::Regular, &[], IRType::Unit);
    assert!(debuggable_def_location(&f).is_none());
    f.def_location = at("src/main.kj");
    assert_eq!(debuggable_def_location(&f).unwrap().line, 3);
    f.kind = FunctionKind::DropGlue;
    assert!(debuggable_def_location(&f).is_none());
}

fn block(id: u32, terminator: IRTerminator) -> IRBasicBlock {
    IRBasicBlock { id: IRBlockId(id), instructions: Vec::new(), label: format!("bb{id}"), params: Vec::new(), terminator }
}

fn to(id: u32) -> BranchTarget {
    BranchTarget { args: Vec::new(), block: IRBlockId(id) }
}

#[test]
fn blocks_are_reached_along_branches() {
    let blocks = vec![
        block(0, IRTerminator::CondBranch { cond: ValueId(0), else_target: to(2), then_target: to(1) }),
        block(1, IRTerminator::Branch(to(3))),
        block(2, IRTerminator::Return { value: None }),
        block(3, IRTerminator::Branch(to(1))),
        block(4, IRTerminator::Branch(to(0))),
    ];
    let mut reached: Vec<u32> = reachable_blocks(&blocks).iter().map(|b| b.0).collect();
    reached.sort_unstable();
    assert_eq!(reached, [0, 1, 2, 3]);
    assert_eq!(block_successors(&blocks[1]), [IRBlockId(3)]);
    assert!(block_successors(&blocks[2]).is_empty());
    assert!(reachable_blocks(&Vec::new()).is_empty());
    assert!(!function_has_tail_call(&blocks));
    assert!(function_has_tail_call(&vec![block(0, IRTerminator::TailCall { args: Vec::new() })]));
}

#[test]
fn dependencies_come_before_dependents() {
    let deps = vec![vec![1, 2], vec![2], vec![], vec![0]];
    let sorted = order(&deps);
    let place = |v: usize| sorted.iter().position(|x| *x == v).unwrap();
    for (v, needs) in deps.iter().enumerate() {
        for d in needs {
            assert!(place(*d) < place(v));
        }
    }
    let ring = order(&vec![vec![1], vec![0], vec![]]);
    let mut all = ring.clone();
    all.sort_unstable();
    assert_eq!(all, [0, 1, 2]);
}

fn enumeration(symbol: usize, slots: &[IRType]) -> IREnumDecl {
    IREnumDecl {
        symbol: IRSymbol(symbol),
        variants: vec![IREnumVariant {
            name: "V".to_string(),
            payload: IRVariantPayload::Tuple(slots.to_vec()),
            tag: IRVariantTag(0),
        }],
    }
}

#[test]
fn enums_come_behind_what_they_hold() {
    let mut c = context(&["A", "B", "C", "S"]);
    c.structs.push(IRStructDecl {
        symbol: IRSymbol(3),
        fields: vec![IRStructField { name: "f".to_string(), ir_type: IRType::Enum(IRSymbol(2)) }],
    });
    c.enums.push(enumeration(0, &[IRType::Enum(IRSymbol(1))]));
    c.enums.push(enumeration(1, &[IRType::Struct(IRSymbol(3))]));
    c.enums.push(enumeration(2, &[IRType::Int64]));
    let sorted = enums_in_dependency_order(&c);
    let symbols: Vec<usize> = sorted.iter().map(|i| c.enums[*i].symbol.0).collect();
    assert_eq!(symbols, [2, 1, 0]);
    let held = inline_types(&c, &vec![IRType::Struct(IRSymbol(3))]);
    assert!(held.contains(&IRType::Enum(IRSymbol(2))));
    assert!(!held.contains(&IRType::Enum(IRSymbol(0))));
}

#[test]
fn the_last_declaration_of_an_enum_counts() {
    let enums = vec![enumeration(4, &[]), enumeration(1, &[]), enumeration(4, &[IRType::Bool])];
    let index = build_enum_index(&enums);
    assert_eq!(index, [1, 2]);
}

#[test]
fn look_ups_take_the_last_declaration() {
    let mut c = context(&["app.a"]);
    let field = |name: &str| IRStructField { name: name.to_string(), ir_type: IRType::Bool };
    c.structs.push(IRStructDecl { symbol: IRSymbol(0), fields: vec![field("x")] });
    c.structs.push(IRStructDecl { symbol: IRSymbol(0), fields: vec![field("x"), field("y")] });
    c.enums.push(enumeration(4, &[]));
    c.enums.push(enumeration(1, &[]));
    c.enums.push(enumeration(4, &[IRType::Bool]));
    assert_eq!(c.find_struct(IRSymbol(0)), Some(1));
    assert_eq!(c.find_struct(IRSymbol(1)), None);
    assert_eq!(c.find_enum(IRSymbol(4)), Some(2));
    assert_eq!(c.find_enum(IRSymbol(1)), Some(1));
}

#[test]
fn symbols_are_numbered_by_name() {
    assert!(comes_before("app.a", "app.b"));
    assert!(comes_before("app", "app.a"));
    assert!(!comes_before("app", "app"));
    assert!(!comes_before("b", "a.long"));
    assert!(context(&[]).names_in_order());
    assert!(context(&["app.a", "app.b", "lib"]).names_in_order());
    assert!(!context(&["app.b", "app.a"]).names_in_order());
    assert!(!context(&["app.a", "app.a"]).names_in_order());
}

fn lowered(blocks: Vec<IRBasicBlock>) -> Result<String, LlvmError> {
    let mut f = function(0, FunctionKind::Regular, &[], IRType::Unit);
    f.blocks = blocks;
    let mut program = IRProgram { tables: context(&["app.f"]), functions: vec![f] };
    lower_measured(&mut program, "unit")
}

fn refusal(blocks: Vec<IRBasicBlock>) -> String {
    match lowered(blocks) {
        Err(LlvmError::Codegen(text)) => text,
        other => panic!("{other:?}"),
    }
}

#[test]
fn blocks_are_labelled_with_their_words() {
    let blocks = || {
        vec![block(7, IRTerminator::Branch(to(9))), block(9, IRTerminator::Return { value: None })]
    };
    let text = lowered(blocks()).unwrap();
    assert!(text.contains("\"\\62\\62\\37.0\":\n  br label %\"\\62\\62\\39.1\"\n"));
    let mut f = function(0, FunctionKind::Regular, &[], IRType::Unit);
    f.blocks = blocks();
    let mut program = IRProgram { tables: context(&["app.f"]), functions: vec![f] };
    let printed = emit_llvm_ir(&mut program, "unit").unwrap();
    assert!(printed.contains("bb7.0:"));
    assert!(printed.contains("br label %bb9.1\n"));
}

#[test]
fn refusals_name_what_is_missing() {
    let done = || block(1, IRTerminator::Return { value: None });
    assert_eq!(refusal(vec![block(0, IRTerminator::Branch(to(9)))]), "undefined IR block 9 during emission");
    let branch = |then_id: u32, else_id: u32| IRTerminator::CondBranch {
        cond: ValueId(5),
        else_target: to(else_id),
        then_target: to(then_id),
    };
    assert_eq!(refusal(vec![block(0, branch(8, 9)), done()]), "undefined SSA value 5 during emission");
    let carried = BranchTarget { args: vec![ValueId(3)], block: IRBlockId(1) };
    assert_eq!(
        refusal(vec![block(0, IRTerminator::Branch(carried)), done()]),
        "branch does not pass what its target takes"
    );
    let unreached = block(1, IRTerminator::Branch(to(4)));
    assert!(lowered(vec![block(0, IRTerminator::Return { value: None }), unreached]).is_ok());
}

#[test]
fn layouts_are_made_of_words_and_fields() {
    let decl = IRStructDecl {
        symbol: IRSymbol(0),
        fields: vec![
            IRStructField { name: "a".to_string(), ir_type: IRType::Bool },
            IRStructField { name: "b".to_string(), ir_type: IRType::List(0) },
        ],
    };
    assert_eq!(define_struct_body(&decl), [LType::I1, LType::List]);
    for (bytes, words) in [(0, 0), (1, 1), (8, 1), (9, 2), (24, 3), (u32::MAX, 0x2000_0000)] {
        let decl = IRUnionDecl { symbol: IRSymbol(0), members: Vec::new(), max_payload_size: bytes };
        assert_eq!(define_union_body(&decl), words);
    }
}

#[test]
fn types_are_lowered() {
    assert_eq!(value_basic_type(IRType::UInt16), LType::I16);
    assert_eq!(value_basic_type(IRType::Binary), LType::Ptr);
    assert_eq!(ir_basic_type(IRType::Float64).unwrap(), LType::F64);
    assert!(matches!(ir_basic_type(IRType::Unit), Err(LlvmError::Codegen(_))));
    assert_eq!(width(LType::I1), 1);
    assert_eq!(width(LType::I32), 32);
    assert!(is_signed(IRType::Int8));
    assert!(!is_signed(IRType::UInt8));
}

#[test]
fn errors_say_which_stage_failed() {
    assert_eq!(LlvmError::Codegen("x".to_string()).to_text(), "LLVM codegen failed: x");
    assert_eq!(LlvmError::ObjectEmit("y".to_string()).to_text(), "LLVM object emit failed: y");
    assert_eq!(codegen_err("building a call", "no builder"), LlvmError::Codegen("building a call: no builder".to_string()));
}

#[test]
fn options_default_to_a_portable_debug_build() {
    let options = CompileOptions::default();
    assert!(!options.release);
    assert_eq!(options.target_cpu, TargetCpu::Baseline);
    assert_eq!(options.opt_level(), OptLevel::Off);
    let release = CompileOptions { release: true, target_cpu: TargetCpu::Native };
    assert_eq!(release.opt_level(), OptLevel::Aggressive);
}

#[test]
fn texts_are_written() {
    assert_eq!(u64_text(0), "0");
    assert_eq!(u64_text(u64::MAX), u64::MAX.to_string());
    let mut out = "<".to_string();
    put_escaped(&mut out, "aÄ\"");
    assert_eq!(out, "<\\61\\C3\\84\\22");
    let mut hex = String::new();
    put_hex(&mut hex, 0xbeef, 6);
    assert_eq!(hex, "00BEEF");
    assert_eq!(byte_length("Ä"), 2);
    assert!(starts_with("Global.Option_$Int$", "Global.Option_$"));
    assert!(!starts_with("Glob", "Global"));
    assert!(same("a", "a") && !same("a", "b") && !same("a", "ab"));
}

#[test]
fn llvm_prints_a_module_in_its_own_words() {
    let text = print_module(&context(&[]), &Vec::new(), "unit");
    let printed = verify_module(&text, "unit").unwrap();
    assert!(printed.contains("; ModuleID = 'unit'"));
    assert!(printed.contains("source_filename = \"unit\""));
    assert!(printed.contains("@__koja_exit_code = global i32 0"));
    assert_ne!(printed, text);
}

#[test]
fn llvm_refuses_what_does_not_verify() {
    let mut c = context(&["f"]);
    c.declared.push(Declared {
        symbol: IRSymbol(0),
        name: "f".to_string(),
        params: Vec::new(),
        ret: LType::I32,
        foreign_float: false,
        defined: true,
    });
    let mut body = Body::new();
    body.ins(Inst::Ret(LType::I64, Val::Int(1)));
    let text = print_module(&c, &vec![body], "unit");
    let Err(LlvmError::Codegen(message)) = verify_module(&text, "unit") else { panic!() };
    assert!(message.starts_with("module verification failed: "));
    assert_eq!(verified_module(Ok("t".to_string())), Ok("t".to_string()));
    assert_eq!(
        verified_module(Err("m".to_string())),
        Err(LlvmError::Codegen("module verification failed: m".to_string())),
    );
}

#[test]
fn names_of_llvm_are_refused() {
    let mut program = IRProgram { tables: context(&["llvm.lifetime.start"]), functions: Vec::new() };
    let declared = Declared {
        symbol: IRSymbol(0),
        name: "llvm.lifetime.start".to_string(),
        params: Vec::new(),
        ret: LType::I32,
        foreign_float: false,
        defined: false,
    };
    assert!(has_llvm_name(&vec![declared]));
    program.tables.symbols[0] = "llvm".to_string();
    assert!(emit_llvm_ir(&mut program, "unit").is_ok());
    assert!(!has_llvm_name(&program.tables.declared));
}

#[test]
fn llvm_measures_types() {
    let c = context(&[]);
    let (bytes, layout) = measure(&c, LType::I64).unwrap();
    assert_eq!(bytes, 8);
    assert!(!layout.is_empty());
    assert_eq!(measure(&c, LType::List), Ok((24, layout)));
    assert_eq!(
        measuring(&c, LType::I8),
        "@measured = external global i8\ndefine void @check() {\n  %t = alloca i8\n  ret void\n}\n"
    );
    assert_eq!(measured_size(Ok((3, "e".to_string()))), Ok((3, "e".to_string())));
    assert_eq!(measured_size(Err("m".to_string())), Err(LlvmError::ObjectEmit("m".to_string())));
}

#[test]
fn sizes_are_taken_under_one_layout() {
    let mut c = context(&[]);
    assert_eq!(take_size(&mut c, LType::I8, None, (1, "e".to_string())), Ok("e".to_string()));
    let before = Some("e".to_string());
    assert_eq!(take_size(&mut c, LType::Ptr, before, (8, "e".to_string())), Ok("e".to_string()));
    let before = Some("e".to_string());
    assert!(matches!(
        take_size(&mut c, LType::I64, before, (8, "E".to_string())),
        Err(LlvmError::ObjectEmit(_))
    ));
    assert_eq!((c.abi_size(LType::I8), c.abi_size(LType::Ptr), c.abi_size(LType::I64)), (1, 8, 0));
    let layout = measure_types(&mut c, &Vec::new()).unwrap();
    assert_eq!(measure(&c, LType::Table), Ok((c.abi_size(LType::Table), layout)));
}

#[test]
fn a_refused_module_says_where_it_was_dumped() {
    assert_eq!(
        verification_failure(Some("/tmp/m.ll"), "bad phi"),
        codegen_err("module verification failed (module dumped to /tmp/m.ll)", "bad phi")
    );
    assert_eq!(
        verification_failure(None, "bad phi"),
        codegen_err("module verification failed", "bad phi")
    );
}

#[test]
fn an_acquire_takes_the_parameter_alone() {
    let (v0, v1) = (ValueId(0), ValueId(1));
    let call = |args: Vec<ValueId>| IRInstruction::Call { args, callee: IRSymbol(0), dest: ValueId(7) };
    assert_eq!(is_param_acquire(&call(vec![v0]), v0), Some(ValueId(7)));
    assert_eq!(is_param_acquire(&call(vec![v0, v1]), v0), None);
    assert_eq!(is_param_acquire(&call(vec![v1]), v0), None);
    assert_eq!(is_param_acquire(&call(vec![]), v0), None);
    let clone = IRInstruction::Clone { dest: ValueId(8), source: v0, ty: IRType::String };
    assert_eq!(is_param_acquire(&clone, v0), Some(ValueId(8)));
    assert_eq!(is_param_acquire(&clone, v1), None);
}

#[test]
fn a_layout_is_pinned_behind_the_source() {
    assert_eq!(pinned("a\nb\nc\nd\n", "e-m"), "a\nb\ntarget datalayout = \"e-m\"\nc\nd\n");
    assert_eq!(pinned("a", "x"), "atarget datalayout = \"x\"\n");
}
