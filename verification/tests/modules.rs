use koja_ir_llvm::ctx::{ClosureSite, EmitContext, Glue, GlueKind};
use koja_ir_llvm::emit_llvm_ir;
use koja_ir_llvm::ir::{
    BinaryEndian, BinaryMethod, BinarySign, BitOp, BitsMethod, BlockParam, BranchTarget,
    CPtrMethod, ConcatKind, DebugImpl, EnumPayloadInit, EqualityImpl, FaultTexts, FunctionKind,
    HashImpl, IRBasicBlock, IRBinOp, IRBlockId, IREnumDecl, IREnumVariant, IRForeignAttrs,
    IRFunction, IRFunctionParam, IRIndirectSlot, IRInstruction, IRIntrinsicId, IRLocalId,
    IRSignature, IRStructDecl, IRStructField, IRSymbol, IRTerminator, IRType, IRUnaryOp,
    IRUnionDecl, IRVariantPayload, IRVariantTag, IntNarrowTarget, ListMethod,
    LoweredBinaryMatchLayout, LoweredBinaryPattern, MapMethod, NumericConvert, ParseTarget,
    ReceiveAfter, ReceiveArm, ReceiveTag, RefMethod, SetMethod, SocketMethod, StringMethod,
    StructFieldInit, ValueId,
};
use koja_ir_llvm::{emit_script_llvm_ir, IRProgram, IRScript, LlvmError};

struct World {
    c: EmitContext,
    functions: Vec<IRFunction>,
}

fn world() -> World {
    World {
        c: EmitContext {
            symbols: Vec::new(),
            types: Vec::new(),
            tuples: Vec::new(),
            signatures: Vec::new(),
            structs: Vec::new(),
            enums: Vec::new(),
            unions: Vec::new(),
            envs: Vec::new(),
            closures: Vec::new(),
            glue: Vec::new(),
            declared: Vec::new(),
            measured: Vec::new(),
        },
        functions: Vec::new(),
    }
}

impl World {
    fn symbol(&mut self, name: &str) -> IRSymbol {
        if let Some(i) = self.c.symbols.iter().position(|s| s == name) {
            return IRSymbol(i);
        }
        self.c.symbols.push(name.to_string());
        IRSymbol(self.c.symbols.len() - 1)
    }

    fn node(&mut self, ty: IRType) -> usize {
        self.c.types.push(ty);
        self.c.types.len() - 1
    }

    fn list(&mut self, ty: IRType) -> IRType {
        IRType::List(self.node(ty))
    }

    fn set(&mut self, ty: IRType) -> IRType {
        IRType::SetOf(self.node(ty))
    }

    fn map(&mut self, key: IRType, value: IRType) -> IRType {
        let k = self.node(key);
        IRType::MapOf(k, self.node(value))
    }

    fn tuple(&mut self, elements: &[IRType]) -> IRType {
        self.c.tuples.push(elements.to_vec());
        IRType::Tuple(self.c.tuples.len() - 1)
    }

    fn structure(&mut self, name: &str, fields: &[IRType]) -> IRType {
        let symbol = self.symbol(name);
        let fields = fields
            .iter()
            .enumerate()
            .map(|(i, ty)| IRStructField { name: format!("f{i}"), ir_type: *ty })
            .collect();
        self.c.structs.push(IRStructDecl { symbol, fields });
        IRType::Struct(symbol)
    }

    fn enumeration(&mut self, name: &str, variants: &[(&str, &[IRType])]) -> IRType {
        let symbol = self.symbol(name);
        let variants = variants
            .iter()
            .enumerate()
            .map(|(i, (name, slots))| IREnumVariant {
                name: name.to_string(),
                payload: if slots.is_empty() {
                    IRVariantPayload::Unit
                } else {
                    IRVariantPayload::Tuple(slots.to_vec())
                },
                tag: IRVariantTag(i as u8),
            })
            .collect();
        self.c.enums.push(IREnumDecl { symbol, variants });
        IRType::Enum(symbol)
    }

    fn option(&mut self, name: &str, ty: IRType) -> IRType {
        self.enumeration(name, &[("Some", &[ty]), ("None", &[])])
    }

    fn result(&mut self, name: &str, ok: IRType, err: IRType) -> IRType {
        self.enumeration(name, &[("Ok", &[ok]), ("Err", &[err])])
    }

    fn function(&mut self, name: &str, kind: FunctionKind, params: &[IRType], ret: IRType) -> usize {
        let symbol = self.symbol(name);
        self.functions.push(IRFunction {
            blocks: Vec::new(),
            def_location: None,
            kind,
            params: params
                .iter()
                .enumerate()
                .map(|(i, ty)| IRFunctionParam {
                    id: ValueId(i as u32),
                    local_id: IRLocalId(i as u32),
                    ty: *ty,
                })
                .collect(),
            return_type: ret,
            symbol,
        });
        self.functions.len() - 1
    }

    fn intrinsic(&mut self, name: &str, id: IRIntrinsicId, params: &[IRType], ret: IRType) -> usize {
        self.function(name, FunctionKind::Intrinsic(id), params, ret)
    }

    fn regular(
        &mut self,
        name: &str,
        params: &[IRType],
        ret: IRType,
        instructions: Vec<IRInstruction>,
        result: Option<ValueId>,
    ) -> usize {
        let at = self.function(name, FunctionKind::Regular, params, ret);
        self.functions[at].blocks = vec![IRBasicBlock {
            id: IRBlockId(0),
            label: "bb".to_string(),
            instructions,
            params: Vec::new(),
            terminator: IRTerminator::Return { value: result },
        }];
        at
    }

    fn key_helpers(&mut self) {
        self.intrinsic("Global.Int.hash", IRIntrinsicId::Hash(HashImpl::Int), &[IRType::Int64], IRType::Int64);
        self.intrinsic(
            "Global.Int.eq",
            IRIntrinsicId::Equality(EqualityImpl::Int),
            &[IRType::Int64, IRType::Int64],
            IRType::Bool,
        );
        self.intrinsic("Global.String.hash", IRIntrinsicId::Hash(HashImpl::String), &[IRType::String], IRType::Int64);
        self.intrinsic(
            "Global.String.eq",
            IRIntrinsicId::Equality(EqualityImpl::String),
            &[IRType::String, IRType::String],
            IRType::Bool,
        );
    }

    fn compile(self) -> Result<String, LlvmError> {
        let mut program = IRProgram { tables: self.c, functions: self.functions };
        emit_llvm_ir(&mut program, "app")
    }
}

fn texts() -> FaultTexts {
    FaultTexts {
        overflow: "integer overflow".to_string(),
        division_by_zero: "division by zero".to_string(),
        non_finite: "not finite".to_string(),
    }
}

fn v(id: u32) -> ValueId {
    ValueId(id)
}

#[test]
fn a_checked_addition_compiles() {
    let mut w = world();
    w.regular(
        "app.sum",
        &[IRType::Int64, IRType::Int64],
        IRType::Int64,
        vec![IRInstruction::BinaryOp {
            dest: v(2),
            lhs: v(0),
            op: IRBinOp::Add,
            operand_ty: IRType::Int64,
            rhs: v(1),
            texts: texts(),
        }],
        Some(v(2)),
    );
    let text = w.compile().unwrap();
    assert!(text.contains("define i64 @app.sum(i64 %a0, i64 %a1)"));
    assert!(text.contains("call { i64, i1 } @llvm.sadd.with.overflow.i64(i64 %a0, i64 %a1)"));
    assert!(text.contains("integer overflow"));
    assert!(text.contains("; ModuleID = 'app'"));
    assert!(text.contains("source_filename = \"app\""));
}

#[test]
fn every_operator_compiles() {
    let ops = [
        IRBinOp::Add,
        IRBinOp::Div,
        IRBinOp::Eq,
        IRBinOp::Gt,
        IRBinOp::GtEq,
        IRBinOp::Lt,
        IRBinOp::LtEq,
        IRBinOp::Mod,
        IRBinOp::Mul,
        IRBinOp::NotEq,
        IRBinOp::Sub,
    ];
    let kinds = [
        IRType::Int8,
        IRType::Int64,
        IRType::UInt8,
        IRType::UInt32,
        IRType::Float32,
        IRType::Float64,
        IRType::String,
    ];
    let mut w = world();
    for (i, ty) in kinds.iter().enumerate() {
        for (j, op) in ops.iter().enumerate() {
            let compares = matches!(
                op,
                IRBinOp::Eq | IRBinOp::Gt | IRBinOp::GtEq | IRBinOp::Lt | IRBinOp::LtEq | IRBinOp::NotEq
            );
            if *ty == IRType::String && !matches!(op, IRBinOp::Eq | IRBinOp::NotEq) {
                continue;
            }
            let ret = if compares { IRType::Bool } else { *ty };
            w.regular(
                &format!("app.op{i}x{j}"),
                &[*ty, *ty],
                ret,
                vec![IRInstruction::BinaryOp {
                    dest: v(2),
                    lhs: v(0),
                    op: *op,
                    operand_ty: *ty,
                    rhs: v(1),
                    texts: texts(),
                }],
                Some(v(2)),
            );
        }
        if *ty != IRType::String {
            w.regular(
                &format!("app.neg{i}"),
                &[*ty],
                *ty,
                vec![IRInstruction::UnaryOp {
                    dest: v(2),
                    op: IRUnaryOp::Neg,
                    operand: v(0),
                    operand_ty: *ty,
                    texts: texts(),
                }],
                Some(v(2)),
            );
        }
    }
    w.regular(
        "app.not",
        &[IRType::Bool],
        IRType::Bool,
        vec![IRInstruction::UnaryOp {
            dest: v(2),
            op: IRUnaryOp::Not,
            operand: v(0),
            operand_ty: IRType::Bool,
            texts: texts(),
        }],
        Some(v(2)),
    );
    for (i, (from, to)) in [
        (IRType::Int8, IRType::Int64),
        (IRType::UInt16, IRType::UInt64),
        (IRType::Float32, IRType::Float64),
    ]
    .iter()
    .enumerate()
    {
        w.regular(
            &format!("app.widen{i}"),
            &[*from],
            *to,
            vec![IRInstruction::NumericWiden { dest: v(1), from: *from, to: *to, value: v(0) }],
            Some(v(1)),
        );
    }
    w.compile().unwrap();
}

#[test]
fn an_ordering_of_strings_is_refused() {
    let mut w = world();
    w.regular(
        "app.less",
        &[IRType::String, IRType::String],
        IRType::Bool,
        vec![IRInstruction::BinaryOp {
            dest: v(2),
            lhs: v(0),
            op: IRBinOp::Lt,
            operand_ty: IRType::String,
            rhs: v(1),
            texts: texts(),
        }],
        Some(v(2)),
    );
    assert!(matches!(w.compile(), Err(LlvmError::Codegen(_))));
}

#[test]
fn every_list_method_compiles() {
    for element in [IRType::Int64, IRType::String, IRType::Bool] {
        let mut w = world();
        let list = w.list(element);
        let option = w.option("Global.Option_$T$", element);
        let pair = w.tuple(&[option, list]);
        let m = IRIntrinsicId::List;
        w.intrinsic("L.append", m(ListMethod::Append), &[list, element], list);
        w.intrinsic("L.concat", m(ListMethod::Concat), &[list, list], list);
        w.intrinsic("L.empty?", m(ListMethod::EmptyQ), &[list], IRType::Bool);
        w.intrinsic("L.from_list", m(ListMethod::FromList), &[list], list);
        w.intrinsic("L.get", m(ListMethod::Get), &[list, IRType::Int64], option);
        w.intrinsic("L.length", m(ListMethod::Length), &[list], IRType::Int64);
        w.intrinsic("L.new", m(ListMethod::New), &[], list);
        w.intrinsic("L.pop", m(ListMethod::Pop), &[list], pair);
        w.intrinsic("L.replace_at", m(ListMethod::ReplaceAt), &[list, IRType::Int64, element], list);
        w.intrinsic("L.slice", m(ListMethod::Slice), &[list, IRType::Int64, IRType::Int64], list);
        w.compile().unwrap();
    }
}

#[test]
fn every_table_method_compiles() {
    for key in [IRType::Int64, IRType::String] {
        let mut w = world();
        w.key_helpers();
        let map = w.map(key, IRType::String);
        let set = w.set(key);
        let list = w.list(key);
        let option = w.option("Global.Option_$V$", IRType::String);
        let entry = w.tuple(&[key, IRType::String]);
        let map_step = w.tuple(&[entry, IRType::Int64]);
        let map_next = w.option("Global.Option_$E$", map_step);
        let set_step = w.tuple(&[key, IRType::Int64]);
        let set_next = w.option("Global.Option_$I$", set_step);
        let m = IRIntrinsicId::MapOf;
        w.intrinsic("M.empty?", m(MapMethod::EmptyQ), &[map], IRType::Bool);
        w.intrinsic("M.from_map", m(MapMethod::FromMap), &[map], map);
        w.intrinsic("M.get", m(MapMethod::Get), &[map, key], option);
        w.intrinsic("M.has?", m(MapMethod::HasQ), &[map, key], IRType::Bool);
        w.intrinsic("M.length", m(MapMethod::Length), &[map], IRType::Int64);
        w.intrinsic("M.new", m(MapMethod::New), &[], map);
        w.intrinsic("M.next", m(MapMethod::Next), &[map, IRType::Int64], map_next);
        w.intrinsic("M.put", m(MapMethod::Put), &[map, key, IRType::String], map);
        w.intrinsic("M.remove", m(MapMethod::Remove), &[map, key], map);
        let s = IRIntrinsicId::SetOf;
        w.intrinsic("S.empty?", s(SetMethod::EmptyQ), &[set], IRType::Bool);
        w.intrinsic("S.from_list", s(SetMethod::FromList), &[list], set);
        w.intrinsic("S.from_set", s(SetMethod::FromSet), &[set], set);
        w.intrinsic("S.has?", s(SetMethod::HasQ), &[set, key], IRType::Bool);
        w.intrinsic("S.insert", s(SetMethod::Insert), &[set, key], set);
        w.intrinsic("S.length", s(SetMethod::Length), &[set], IRType::Int64);
        w.intrinsic("S.new", s(SetMethod::New), &[], set);
        w.intrinsic("S.next", s(SetMethod::Next), &[set, IRType::Int64], set_next);
        w.intrinsic("S.remove", s(SetMethod::Remove), &[set, key], set);
        w.compile().unwrap();
    }
}

#[test]
fn a_table_of_keys_without_helpers_is_refused() {
    let mut w = world();
    let map = w.map(IRType::Int64, IRType::String);
    w.intrinsic("M.has?", IRIntrinsicId::MapOf(MapMethod::HasQ), &[map, IRType::Int64], IRType::Bool);
    match w.compile() {
        Err(LlvmError::Codegen(m)) => {
            assert!(m.contains("type `Int64` does not implement Hash (no `Global.Int.hash` function)"))
        }
        other => panic!("{other:?}"),
    }
}

#[test]
fn every_scalar_intrinsic_compiles() {
    let mut w = world();
    let range_error = w.enumeration("Global.RangeError", &[("OutOfRange", &[]), ("InvalidFormat", &[])]);
    for (i, (ty, signed)) in [
        (IRType::Int8, true),
        (IRType::Int64, true),
        (IRType::UInt8, false),
        (IRType::UInt64, false),
    ]
    .iter()
    .enumerate()
    {
        for (j, op) in
            [BitOp::Band, BitOp::Bnot, BitOp::Bor, BitOp::Bsl, BitOp::Bsr, BitOp::Bxor].iter().enumerate()
        {
            let params: Vec<IRType> = match op {
                BitOp::Bnot => vec![*ty],
                BitOp::Bsl | BitOp::Bsr => vec![*ty, IRType::Int64],
                _ => vec![*ty, *ty],
            };
            w.intrinsic(&format!("B.{i}x{j}"), IRIntrinsicId::Bitwise(*op, *signed), &params, *ty);
        }
    }
    for (i, target) in [
        (IntNarrowTarget::Int8, IRType::Int8),
        (IntNarrowTarget::Int16, IRType::Int16),
        (IntNarrowTarget::Int32, IRType::Int32),
        (IntNarrowTarget::UInt8, IRType::UInt8),
        (IntNarrowTarget::UInt16, IRType::UInt16),
        (IntNarrowTarget::UInt32, IRType::UInt32),
        (IntNarrowTarget::UInt64, IRType::UInt64),
    ]
    .iter()
    .enumerate()
    {
        let result = w.result(&format!("Global.Result_$N{i}$"), target.1, range_error);
        w.intrinsic(
            &format!("N.{i}"),
            IRIntrinsicId::NumericConvert(NumericConvert::IntNarrow(target.0)),
            &[IRType::Int64],
            result,
        );
    }
    let wide = w.result("Global.Result_$W$", IRType::Int64, range_error);
    w.intrinsic(
        "N.uint",
        IRIntrinsicId::NumericConvert(NumericConvert::UInt64ToInt),
        &[IRType::UInt64],
        wide,
    );
    w.intrinsic(
        "N.float",
        IRIntrinsicId::NumericConvert(NumericConvert::FloatToFloat32),
        &[IRType::Float64],
        IRType::Float32,
    );
    let int = w.result("Global.Result_$P$", IRType::Int64, range_error);
    let float = w.result("Global.Result_$Q$", IRType::Float64, range_error);
    w.intrinsic("P.int", IRIntrinsicId::Parse(ParseTarget::Int), &[IRType::String], int);
    w.intrinsic("P.float", IRIntrinsicId::Parse(ParseTarget::Float), &[IRType::String], float);
    for (i, (ty, d)) in [
        (IRType::Bool, DebugImpl::Bool),
        (IRType::Float64, DebugImpl::Float),
        (IRType::Float32, DebugImpl::Float32),
        (IRType::Int16, DebugImpl::Signed),
        (IRType::Int64, DebugImpl::Signed),
        (IRType::UInt8, DebugImpl::Unsigned),
        (IRType::UInt64, DebugImpl::Unsigned),
    ]
    .iter()
    .enumerate()
    {
        w.intrinsic(&format!("D.{i}"), IRIntrinsicId::Debug(*d), &[*ty], IRType::String);
    }
    for (i, (ty, e)) in [
        (IRType::Bool, EqualityImpl::Bool),
        (IRType::Float32, EqualityImpl::Float),
        (IRType::Float64, EqualityImpl::Float),
        (IRType::Int8, EqualityImpl::Int),
        (IRType::UInt64, EqualityImpl::Int),
        (IRType::String, EqualityImpl::String),
    ]
    .iter()
    .enumerate()
    {
        w.intrinsic(&format!("E.{i}"), IRIntrinsicId::Equality(*e), &[*ty, *ty], IRType::Bool);
    }
    for (i, (ty, h)) in [
        (IRType::Bool, HashImpl::Bool),
        (IRType::Int8, HashImpl::Int),
        (IRType::UInt32, HashImpl::Int),
        (IRType::Int64, HashImpl::Int),
        (IRType::String, HashImpl::String),
    ]
    .iter()
    .enumerate()
    {
        w.intrinsic(&format!("H.{i}"), IRIntrinsicId::Hash(*h), &[*ty], IRType::Int64);
    }
    w.intrinsic("K.panic", IRIntrinsicId::KernelPanic, &[IRType::String], IRType::Unit);
    w.intrinsic("K.adopt", IRIntrinsicId::AdoptBinary, &[IRType::Binary], IRType::Binary);
    w.compile().unwrap();
}

#[test]
fn every_payload_intrinsic_compiles() {
    let mut w = world();
    let utf8_error = w.enumeration("Global.Utf8Error", &[("InvalidUTF8", &[]), ("InteriorNul", &[])]);
    let cstring_error = w.enumeration(
        "Global.CStringError",
        &[("InvalidLength", &[]), ("NullPointer", &[]), ("InvalidUTF8", &[])],
    );
    let range = w.structure("Global.Range", &[IRType::Int64, IRType::Int64]);
    let byte_node = w.node(IRType::UInt8);
    let cptr = IRType::CPtr(byte_node);
    let cstring = w.structure("Global.CString", &[cptr, IRType::Int64]);
    let string_option = w.option("Global.Option_$S$", IRType::String);
    let byte_option = w.option("Global.Option_$B$", IRType::Int64);
    let string_result = w.result("Global.Result_$S$", IRType::String, utf8_error);
    let binary_result = w.result("Global.Result_$B$", IRType::Binary, IRType::String);
    let cstring_result = w.result("Global.Result_$C$", cstring, utf8_error);
    let from_c = w.result("Global.Result_$F$", IRType::String, cstring_error);
    let s = IRIntrinsicId::String;
    w.intrinsic("S.byte_length", s(StringMethod::ByteLength), &[IRType::String], IRType::Int64);
    w.intrinsic("S.get", s(StringMethod::Get), &[IRType::String, IRType::Int64], string_option);
    w.intrinsic("S.length", s(StringMethod::Length), &[IRType::String], IRType::Int64);
    w.intrinsic("S.slice", s(StringMethod::Slice), &[IRType::String, range], IRType::String);
    w.intrinsic("S.to_binary", s(StringMethod::ToBinary), &[IRType::String], IRType::Binary);
    w.intrinsic("S.to_cstring", s(StringMethod::ToCstring), &[IRType::String], cstring_result);
    let b = IRIntrinsicId::Binary;
    w.intrinsic("B.at", b(BinaryMethod::At), &[IRType::Binary, IRType::Int64], byte_option);
    w.intrinsic("B.byte_size", b(BinaryMethod::ByteSize), &[IRType::Binary], IRType::Int64);
    w.intrinsic("B.slice", b(BinaryMethod::Slice), &[IRType::Binary, range], IRType::Binary);
    w.intrinsic("B.to_bits", b(BinaryMethod::ToBits), &[IRType::Binary], IRType::Bits);
    w.intrinsic("B.to_string", b(BinaryMethod::ToString), &[IRType::Binary], string_result);
    let t = IRIntrinsicId::Bits;
    w.intrinsic("T.bit_size", t(BitsMethod::BitSize), &[IRType::Bits], IRType::Int64);
    w.intrinsic("T.byte_at", t(BitsMethod::ByteAt), &[IRType::Bits, IRType::Int64], byte_option);
    w.intrinsic("T.to_binary", t(BitsMethod::ToBinary), &[IRType::Bits], binary_result);
    let p = IRIntrinsicId::CPtr;
    w.intrinsic("C.alloc", p(CPtrMethod::Alloc), &[IRType::Int64], cptr);
    w.intrinsic("C.borrow", p(CPtrMethod::Borrow), &[IRType::Binary], cptr);
    w.intrinsic("C.copy", p(CPtrMethod::Copy), &[IRType::Binary], cptr);
    w.intrinsic("C.free", p(CPtrMethod::Free), &[cptr], IRType::Unit);
    w.intrinsic("C.null", p(CPtrMethod::Null), &[], cptr);
    w.intrinsic("C.null?", p(CPtrMethod::NullQ), &[cptr], IRType::Bool);
    w.intrinsic("C.offset", p(CPtrMethod::Offset), &[cptr, IRType::Int64], cptr);
    w.intrinsic("C.read", p(CPtrMethod::Read), &[cptr], IRType::UInt8);
    w.intrinsic("C.to_binary", p(CPtrMethod::ToBinary), &[cptr, IRType::Int64], IRType::Binary);
    w.intrinsic("C.write", p(CPtrMethod::Write), &[cptr, IRType::UInt8], IRType::Unit);
    w.intrinsic("C.to_string", IRIntrinsicId::CString, &[cstring], from_c);
    w.compile().unwrap();
}

#[test]
fn every_process_intrinsic_compiles() {
    let mut w = world();
    let message = w.enumeration("App.Message", &[("Add", &[IRType::Int64]), ("Name", &[IRType::String])]);
    let reference = w.structure("Global.Ref_$M$", &[IRType::Int64]);
    let reply_to = w.structure("Global.ReplyTo_$R$", &[IRType::Int64, IRType::Int64]);
    let call_error = w.enumeration("Global.Process.CallError", &[("Timeout", &[]), ("ProcessDown", &[])]);
    let answer = w.result("Global.Result_$A$", IRType::String, call_error);
    let delivery = w.enumeration("Global.Process.Delivery", &[("Delivered", &[]), ("Expired", &[])]);
    let lifecycle = w.enumeration(
        "Global.Process.Lifecycle",
        &[("Shutdown", &[]), ("Interrupt", &[]), ("Reload", &[])],
    );
    let r = IRIntrinsicId::Ref;
    w.intrinsic("R.alive?", r(RefMethod::AliveQ), &[reference], IRType::Bool);
    w.intrinsic("R.call", r(RefMethod::Call), &[reference, message, IRType::Int64], answer);
    w.intrinsic("R.cast", r(RefMethod::Cast), &[reference, message], IRType::Unit);
    w.intrinsic("R.kill", r(RefMethod::Kill), &[reference], IRType::Unit);
    w.intrinsic("R.self_ref", r(RefMethod::SelfRef), &[], reference);
    w.intrinsic("R.send_after", r(RefMethod::SendAfter), &[reference, IRType::String, IRType::Int64], IRType::Unit);
    w.intrinsic("R.signal", r(RefMethod::Signal), &[reference, lifecycle], IRType::Unit);
    w.intrinsic("R.reply", IRIntrinsicId::ReplyToSend, &[reply_to, IRType::String], delivery);
    let text = w.compile().unwrap();
    assert!(text.contains("define private void @koja_drop.0(i8* %a0)"));
}

#[test]
fn every_socket_intrinsic_compiles() {
    let mut w = world();
    let addresses = w.list(IRType::Binary);
    let datagram = w.tuple(&[IRType::Binary, IRType::Binary, IRType::Int64]);
    let resolved = w.result("Global.Result_$L$", addresses, IRType::String);
    let received = w.result("Global.Result_$D$", datagram, IRType::String);
    let descriptor = w.structure("Global.Fd", &[IRType::Int64]);
    let socket = w.structure("Global.Socket", &[descriptor]);
    let s = IRIntrinsicId::Socket;
    w.intrinsic("S.last_error", s(SocketMethod::LastError), &[], IRType::String);
    w.intrinsic("S.resolve", s(SocketMethod::ResolveRaw), &[IRType::String], resolved);
    w.intrinsic("S.recv_from", s(SocketMethod::RecvFromRaw), &[socket, IRType::Int64], received);
    w.compile().unwrap();
}

#[test]
fn every_collection_glue_compiles() {
    let mut w = world();
    let list = w.list(IRType::String);
    let set = w.set(IRType::String);
    let map = w.map(IRType::Int64, IRType::Binary);
    for (i, ty) in [list, set, map].iter().enumerate() {
        w.function(&format!("G.clone{i}"), FunctionKind::CloneGlue, &[*ty], *ty);
        w.function(&format!("G.copy{i}"), FunctionKind::DeepCopyGlue, &[*ty], *ty);
        w.function(&format!("G.drop{i}"), FunctionKind::DropGlue, &[*ty], IRType::Unit);
    }
    let nested = w.list(list);
    w.c.glue.push(Glue { kind: GlueKind::Clone, ty: list, function: 0 });
    w.c.glue.push(Glue { kind: GlueKind::DeepCopy, ty: list, function: 1 });
    w.c.glue.push(Glue { kind: GlueKind::Drop, ty: list, function: 2 });
    w.function("G.clone_nested", FunctionKind::CloneGlue, &[nested], nested);
    w.function("G.copy_nested", FunctionKind::DeepCopyGlue, &[nested], nested);
    w.function("G.drop_nested", FunctionKind::DropGlue, &[nested], IRType::Unit);
    w.compile().unwrap();
}

#[test]
fn closures_compile() {
    let mut w = world();
    w.c.signatures.push(IRSignature { params: vec![IRType::Int64], return_type: IRType::Int64 });
    let closure = IRType::Function(0);
    w.c.signatures.push(IRSignature { params: vec![closure], return_type: IRType::Bool });
    w.c.envs.push(vec![IRType::Int64, IRType::String]);
    w.c.envs.push(Vec::new());
    let body = w.function("app.body", FunctionKind::Closure { env: 0 }, &[IRType::Int64], IRType::Int64);
    w.functions[body].blocks = vec![IRBasicBlock {
        id: IRBlockId(0),
        label: "bb".to_string(),
        instructions: vec![IRInstruction::LoadCapture { capture_index: 0, dest: v(9), ty: IRType::Int64 }],
        params: Vec::new(),
        terminator: IRTerminator::Return { value: Some(v(9)) },
    }];
    let plain = w.function("app.plain", FunctionKind::Closure { env: 1 }, &[IRType::Int64], IRType::Int64);
    w.functions[plain].blocks = vec![IRBasicBlock {
        id: IRBlockId(0),
        label: "bb".to_string(),
        instructions: Vec::new(),
        params: Vec::new(),
        terminator: IRTerminator::Return { value: Some(v(0)) },
    }];
    let copy = w.function("app.body.copy", FunctionKind::CopyClosureGlue { env: 0 }, &[], IRType::Unit);
    let eq = w.function("app.body.eq", FunctionKind::Closure { env: 0 }, &[closure], IRType::Bool);
    w.functions[eq].blocks = vec![IRBasicBlock {
        id: IRBlockId(0),
        label: "bb".to_string(),
        instructions: vec![
            IRInstruction::LoadCapture { capture_index: 0, dest: v(9), ty: IRType::Int64 },
            IRInstruction::LoadCaptureOf { capture_index: 0, closure: v(0), dest: v(10), ty: IRType::Int64 },
            IRInstruction::BinaryOp {
                dest: v(11),
                lhs: v(9),
                op: IRBinOp::Eq,
                operand_ty: IRType::Int64,
                rhs: v(10),
                texts: texts(),
            },
        ],
        params: Vec::new(),
        terminator: IRTerminator::Return { value: Some(v(11)) },
    }];
    let body_symbol = w.symbol("app.body");
    let plain_symbol = w.symbol("app.plain");
    w.c.closures.push(ClosureSite {
        body: body_symbol,
        copy_fn: Some(copy),
        drop_fn: None,
        eq_fn: Some(eq),
        site_id: 7,
        env: 0,
    });
    w.c.closures.push(ClosureSite {
        body: plain_symbol,
        copy_fn: None,
        drop_fn: None,
        eq_fn: None,
        site_id: 8,
        env: 1,
    });
    w.regular(
        "app.use",
        &[IRType::Int64, IRType::String],
        IRType::Int64,
        vec![
            IRInstruction::MakeClosure { body: body_symbol, captures: vec![v(0), v(1)], dest: v(2) },
            IRInstruction::MakeClosure { body: plain_symbol, captures: Vec::new(), dest: v(3) },
            IRInstruction::Clone { dest: v(4), source: v(2), ty: closure },
            IRInstruction::DeepCopy { dest: v(5), source: v(2), ty: closure },
            IRInstruction::ClosureEquals { dest: v(6), lhs: v(2), rhs: v(3), signature: 1 },
            IRInstruction::CallClosure { args: vec![v(0)], callee: v(4), dest: v(7), signature: 0 },
            IRInstruction::DropValue { ty: closure, value: v(5) },
        ],
        Some(v(7)),
    );
    let text = w.compile().unwrap();
    assert!(text.contains(
        "@\"app.plain.$env$\" = private constant { i64, i8*, i8*, i64, i8* } { i64 -9223372036854775808, i8* null, i8* null, i64 8, i8* null }"
    ));
}

#[test]
fn aggregates_and_locals_compile() {
    let mut w = world();
    let tuple = w.tuple(&[IRType::Int64, IRType::String]);
    let node = w.node(IRType::Int64);
    let boxed = IRType::Indirect(node);
    let tree = w.enumeration("app.Tree", &[("Leaf", &[]), ("Node", &[IRType::Int64, boxed])]);
    let (tree_symbol, tuple_id) = match (tree, tuple) {
        (IRType::Enum(s), IRType::Tuple(t)) => (s, t),
        _ => unreachable!(),
    };
    let holder = w.structure("app.Holder", &[boxed]);
    let holder_symbol = match holder {
        IRType::Struct(s) => s,
        _ => unreachable!(),
    };
    w.c.unions.push(IRUnionDecl {
        symbol: IRSymbol(0),
        members: vec![IRType::Int64, tuple],
        max_payload_size: 16,
    });
    w.c.symbols.push("app.Union".to_string());
    w.c.unions[0].symbol = IRSymbol(w.c.symbols.len() - 1);
    let union = IRType::Union(0);
    w.regular(
        "app.use",
        &[IRType::Int64, IRType::String, holder, union],
        IRType::Int64,
        vec![
            IRInstruction::LocalDecl { local: IRLocalId(10), ty: IRType::String },
            IRInstruction::Clone { dest: v(20), source: v(1), ty: IRType::String },
            IRInstruction::LocalWrite { local: IRLocalId(10), ty: IRType::String, value: v(20) },
            IRInstruction::LocalRead { dest: v(21), local: IRLocalId(10), ty: IRType::String },
            IRInstruction::TupleInit { dest: v(22), elements: vec![v(0), v(21)], tuple: tuple_id },
            IRInstruction::TupleGet { base: v(22), dest: v(23), index: 0, tuple: tuple_id },
            IRInstruction::EnumConstruct {
                dest: v(24),
                payload: EnumPayloadInit::Tuple(vec![v(23), v(0)]),
                tag: IRVariantTag(1),
                ty: tree_symbol,
            },
            IRInstruction::EnumTagGet { dest: v(25), ty: tree_symbol, value: v(24) },
            IRInstruction::EnumPayloadFieldGet {
                dest: v(26),
                payload_index: 1,
                tag: IRVariantTag(1),
                ty: tree_symbol,
                value: v(24),
            },
            IRInstruction::IndirectPresent {
                base: v(24),
                dest: v(27),
                slot: IRIndirectSlot::EnumPayload { payload_index: 1, tag: IRVariantTag(1), ty: tree_symbol },
            },
            IRInstruction::IndirectPresent {
                base: v(2),
                dest: v(28),
                slot: IRIndirectSlot::StructField { field_index: 0, struct_symbol: holder_symbol },
            },
            IRInstruction::EnumConstruct {
                dest: v(29),
                payload: EnumPayloadInit::Struct(vec![
                    StructFieldInit { index: 1, value: v(0) },
                    StructFieldInit { index: 0, value: v(26) },
                ]),
                tag: IRVariantTag(1),
                ty: tree_symbol,
            },
            IRInstruction::Concat { dest: v(30), kind: ConcatKind::String, lhs: v(21), rhs: v(1) },
            IRInstruction::Concat { dest: v(31), kind: ConcatKind::Bits, lhs: v(21), rhs: v(1) },
            IRInstruction::DeepCopy { dest: v(32), source: v(30), ty: IRType::String },
            IRInstruction::DropValue { ty: IRType::String, value: v(32) },
            IRInstruction::DropLocal { local: IRLocalId(10), ty: IRType::String },
            IRInstruction::DropValue { ty: union, value: v(3) },
        ],
        Some(v(26)),
    );
    let text = w.compile().unwrap();
    assert!(text.contains("%app.Union = type { i64, [2 x i64] }"));
    assert!(text.contains("%app.Tree = type { [3 x i64] }"));
}

#[test]
fn binary_matches_compile() {
    let mut w = world();
    w.regular(
        "app.match",
        &[IRType::Binary],
        IRType::Bool,
        vec![
            IRInstruction::LocalDecl { local: IRLocalId(5), ty: IRType::Int16 },
            IRInstruction::LocalDecl { local: IRLocalId(6), ty: IRType::Binary },
            IRInstruction::BinaryMatch {
                dest: v(1),
                layout: LoweredBinaryMatchLayout { fixed_bits: 56, has_greedy_tail: true },
                segments: vec![
                    LoweredBinaryPattern::LiteralInt {
                        bit_offset: 0,
                        endian: BinaryEndian::Big,
                        value: 7,
                        width: 16,
                    },
                    LoweredBinaryPattern::LiteralBytes { bit_offset: 16, bytes: b"ab".to_vec() },
                    LoweredBinaryPattern::BindInt {
                        bit_offset: 32,
                        endian: BinaryEndian::Little,
                        local: IRLocalId(5),
                        sign: BinarySign::Signed,
                        ty: IRType::Int16,
                        width: 16,
                    },
                    LoweredBinaryPattern::Discard,
                    LoweredBinaryPattern::GreedyTail { bit_offset: 56, local: Some(IRLocalId(6)) },
                ],
                subject: v(0),
            },
        ],
        Some(v(1)),
    );
    w.compile().unwrap();
}

#[test]
fn a_sub_byte_segment_is_refused() {
    let mut w = world();
    w.regular(
        "app.match",
        &[IRType::Binary],
        IRType::Bool,
        vec![IRInstruction::BinaryMatch {
            dest: v(1),
            layout: LoweredBinaryMatchLayout { fixed_bits: 8, has_greedy_tail: false },
            segments: vec![LoweredBinaryPattern::LiteralInt {
                bit_offset: 0,
                endian: BinaryEndian::Big,
                value: 1,
                width: 3,
            }],
            subject: v(0),
        }],
        Some(v(1)),
    );
    match w.compile() {
        Err(LlvmError::Codegen(m)) => assert_eq!(
            m,
            "sub-byte binary literal pattern segment (bit_offset=0, width=3) is not supported"
        ),
        other => panic!("{other:?}"),
    }
}

#[test]
fn branches_loops_and_tail_calls_compile() {
    let mut w = world();
    let at = w.function("app.count", FunctionKind::Regular, &[IRType::Int64, IRType::Int64], IRType::Int64);
    let promote = |id: u32| {
        vec![
            IRInstruction::LocalDecl { local: IRLocalId(id), ty: IRType::Int64 },
            IRInstruction::LocalWrite { local: IRLocalId(id), ty: IRType::Int64, value: v(id) },
        ]
    };
    let mut entry = promote(0);
    entry.extend(promote(1));
    entry.push(IRInstruction::LocalRead { dest: v(2), local: IRLocalId(0), ty: IRType::Int64 });
    entry.push(IRInstruction::LocalRead { dest: v(3), local: IRLocalId(1), ty: IRType::Int64 });
    entry.push(IRInstruction::BinaryOp {
        dest: v(4),
        lhs: v(2),
        op: IRBinOp::Lt,
        operand_ty: IRType::Int64,
        rhs: v(3),
        texts: texts(),
    });
    w.functions[at].blocks = vec![
        IRBasicBlock {
            id: IRBlockId(0),
            label: "bb".to_string(),
            instructions: entry,
            params: Vec::new(),
            terminator: IRTerminator::CondBranch {
                cond: v(4),
                else_target: BranchTarget { args: vec![v(2)], block: IRBlockId(2) },
                then_target: BranchTarget { args: Vec::new(), block: IRBlockId(1) },
            },
        },
        IRBasicBlock {
            id: IRBlockId(1),
            label: "bb".to_string(),
            instructions: vec![
                IRInstruction::LocalDecl { local: IRLocalId(9), ty: IRType::Int64 },
                IRInstruction::BinaryOp {
                    dest: v(5),
                    lhs: v(2),
                    op: IRBinOp::Add,
                    operand_ty: IRType::Int64,
                    rhs: v(2),
                    texts: texts(),
                },
                IRInstruction::YieldCheck,
            ],
            params: Vec::new(),
            terminator: IRTerminator::TailCall { args: vec![v(5), v(3)] },
        },
        IRBasicBlock {
            id: IRBlockId(2),
            label: "bb".to_string(),
            instructions: Vec::new(),
            params: vec![BlockParam { dest: v(6), ty: IRType::Int64 }],
            terminator: IRTerminator::Return { value: Some(v(6)) },
        },
        IRBasicBlock {
            id: IRBlockId(3),
            label: "bb".to_string(),
            instructions: Vec::new(),
            params: vec![BlockParam { dest: v(7), ty: IRType::Int64 }, BlockParam { dest: v(8), ty: IRType::Bool }],
            terminator: IRTerminator::Return { value: Some(v(7)) },
        },
    ];
    w.compile().unwrap();
}

#[test]
fn processes_compile() {
    let mut w = world();
    let config = w.structure("app.Config", &[IRType::Int64, IRType::String]);
    let message = w.tuple(&[IRType::Int64, IRType::Int64]);
    let lifecycle = w.enumeration(
        "Global.Process.Lifecycle",
        &[("Shutdown", &[]), ("Interrupt", &[]), ("Reload", &[])],
    );
    let reference = w.structure("Global.Ref_$M$", &[IRType::Int64]);
    let ref_symbol = match reference {
        IRType::Struct(s) => s,
        _ => unreachable!(),
    };
    w.regular("app.spawn_body", &[config], IRType::Unit, Vec::new(), None);
    w.function(
        "app.cosf",
        FunctionKind::Foreign(IRForeignAttrs { link_name: None }),
        &[IRType::Float64],
        IRType::Float64,
    );
    let entry_body = w.function(
        "app.entry_body",
        FunctionKind::Foreign(IRForeignAttrs { link_name: Some("entry".to_string()) }),
        &[config],
        IRType::Int64,
    );
    assert_eq!(entry_body, 2);
    for (name, kind, callee) in [
        ("app.wrapper", FunctionKind::SpawnWrapper, "app.spawn_body"),
        ("app.main", FunctionKind::ProcessEntryWrapper, "app.entry_body"),
    ] {
        let symbol = w.symbol(callee);
        let at = w.function(name, kind, &[config], IRType::Unit);
        w.functions[at].blocks = vec![IRBasicBlock {
            id: IRBlockId(0),
            label: "bb".to_string(),
            instructions: vec![IRInstruction::Call { args: vec![v(0)], callee: symbol, dest: v(1) }],
            params: Vec::new(),
            terminator: IRTerminator::Return { value: None },
        }];
    }
    let wrapper = w.symbol("app.wrapper");
    let cosf = w.symbol("app.cosf");
    let at = w.function("app.loop", FunctionKind::Regular, &[config, IRType::Int64, IRType::Float64], IRType::Unit);
    let returns = |id: u32| IRBasicBlock {
        id: IRBlockId(id),
        label: "bb".to_string(),
        instructions: Vec::new(),
        params: Vec::new(),
        terminator: IRTerminator::Return { value: None },
    };
    w.functions[at].blocks = vec![
        IRBasicBlock {
            id: IRBlockId(0),
            label: "bb".to_string(),
            instructions: vec![
                IRInstruction::LocalDecl { local: IRLocalId(7), ty: message },
                IRInstruction::LocalDecl { local: IRLocalId(8), ty: lifecycle },
                IRInstruction::Spawn { config: v(0), config_type: config, dest: v(5), ref_type: ref_symbol, wrapper },
                IRInstruction::SetPriority { tag: v(1) },
                IRInstruction::Call { args: vec![v(2)], callee: cosf, dest: v(6) },
                IRInstruction::Receive {
                    after: Some(ReceiveAfter { body: IRBlockId(3), timeout: v(1) }),
                    arms: vec![
                        ReceiveArm {
                            body: IRBlockId(1),
                            payload_local: IRLocalId(7),
                            payload_type: message,
                            tag: ReceiveTag::Business,
                            wire_byte: 0,
                        },
                        ReceiveArm {
                            body: IRBlockId(2),
                            payload_local: IRLocalId(8),
                            payload_type: lifecycle,
                            tag: ReceiveTag::Lifecycle,
                            wire_byte: 1,
                        },
                    ],
                },
            ],
            params: Vec::new(),
            terminator: IRTerminator::Unreachable,
        },
        returns(1),
        returns(2),
        returns(3),
    ];
    let text = w.compile().unwrap();
    assert!(text.contains("declare double @cosf(double)"));
    assert!(text.contains("declare i64 @entry(%app.Config)"));
    assert!(text.contains("non-finite float returned by cosf"));
    assert!(text.contains("store i32"));
}

#[test]
fn a_recursive_struct_is_refused() {
    let mut w = world();
    let symbol = w.symbol("app.Loop");
    w.structure("app.Loop", &[IRType::Int64, IRType::Struct(symbol)]);
    assert!(matches!(w.compile(), Err(LlvmError::ObjectEmit(_))));
}

#[test]
fn an_ill_typed_call_is_refused_by_llvm() {
    let mut w = world();
    w.regular("app.takes", &[IRType::Int64], IRType::Unit, Vec::new(), None);
    let takes = w.symbol("app.takes");
    w.regular(
        "app.calls",
        &[IRType::Bool],
        IRType::Unit,
        vec![IRInstruction::Call { args: vec![v(0)], callee: takes, dest: v(1) }],
        None,
    );
    match w.compile() {
        Err(LlvmError::Codegen(m)) => assert!(m.starts_with("module verification failed: ")),
        other => panic!("{other:?}"),
    }
}

#[test]
fn a_script_compiles_like_a_program() {
    let mut w = world();
    w.regular("script.main", &[], IRType::Unit, Vec::new(), None);
    let mut script = IRScript { program: IRProgram { tables: w.c, functions: w.functions } };
    let text = emit_script_llvm_ir(&mut script, "script").unwrap();
    assert!(text.contains("define void @script.main()"));
    let lines: Vec<&str> = text.lines().collect();
    assert_eq!(lines[0], "; ModuleID = 'script'");
    assert!(lines[1].starts_with("source_filename = "));
    assert!(lines[2].starts_with("target datalayout = \""));
    assert_eq!(script.program.tables.declared.len(), 1);
    assert_eq!(script.program.tables.declared[0].name, "script.main");
}

#[test]
fn a_broken_wire_order_is_refused() {
    let mut w = world();
    w.enumeration("Global.IO.Ready", &[("Write", &[]), ("Read", &[]), ("Error", &[])]);
    match w.compile() {
        Err(LlvmError::Codegen(m)) => {
            assert!(m.starts_with("enum `Global.IO.Ready` breaks its wire contract: variant at position 0"));
            assert!(m.ends_with("(expected [\"Read\", \"Write\", \"Error\"])"));
        }
        other => panic!("{other:?}"),
    }
}

#[test]
fn the_newest_slot_stands_first() {
    let mut w = world();
    w.regular(
        "app.two",
        &[],
        IRType::Unit,
        vec![
            IRInstruction::LocalDecl { local: IRLocalId(5), ty: IRType::Int64 },
            IRInstruction::LocalDecl { local: IRLocalId(6), ty: IRType::Int8 },
        ],
        None,
    );
    let text = w.compile().unwrap();
    let (old, new) = (text.find("%t0 = alloca i64").unwrap(), text.find("%t1 = alloca i8").unwrap());
    assert!(new < old);
    let entry = &text[text.find("define void @app.two()").unwrap()..];
    assert!(entry.lines().nth(2).unwrap().trim_start().starts_with("%t1 = alloca i8"), "{entry}");
}
