//! The sealed intermediate representation that code is emitted from.
//!
//! Names are interned and component types are named by their place in a
//! table, so types, ids and operators are small plain values. The tables
//! themselves are held by [`crate::ctx::EmitContext`].

use vstd::prelude::*;

verus! {

/// An interned mangled name. Symbols are numbered in the order of their
/// names, which [`crate::ctx::EmitContext::names_in_order`] tells.
#[derive(Clone, Copy, Debug, PartialEq, Eq, Structural)]
pub struct IRSymbol(pub usize);

/// An SSA value of a function.
#[derive(Clone, Copy, Debug, PartialEq, Eq, Structural)]
pub struct ValueId(pub u32);

/// A local variable slot of a function.
#[derive(Clone, Copy, Debug, PartialEq, Eq, Structural)]
pub struct IRLocalId(pub u32);

/// A basic block of a function.
#[derive(Clone, Copy, Debug, PartialEq, Eq, Structural)]
pub struct IRBlockId(pub u32);

/// The tag of an enum variant.
#[derive(Clone, Copy, Debug, PartialEq, Eq, Structural)]
pub struct IRVariantTag(pub u8);

/// A type. Component types are named by their place in the type table,
/// tuples, unions and function signatures by their place in tables of
/// their own.
#[derive(Clone, Copy, Debug, PartialEq, Eq, Structural)]
pub enum IRType {
    Binary,
    Bits,
    Bool,
    CPtr(usize),
    Enum(IRSymbol),
    Float32,
    Float64,
    Function(usize),
    Indirect(usize),
    Int8,
    Int16,
    Int32,
    Int64,
    List(usize),
    MapOf(usize, usize),
    SetOf(usize),
    String,
    Struct(IRSymbol),
    Tuple(usize),
    UInt8,
    UInt16,
    UInt32,
    UInt64,
    Union(usize),
    Unit,
}

/// The signature of a function type.
#[derive(Debug)]
pub struct IRSignature {
    pub params: Vec<IRType>,
    pub return_type: IRType,
}

/// A field of a struct or of a struct-shaped variant payload.
#[derive(Debug)]
pub struct IRStructField {
    pub name: String,
    pub ir_type: IRType,
}

#[derive(Debug)]
pub struct IRStructDecl {
    pub symbol: IRSymbol,
    pub fields: Vec<IRStructField>,
}

/// What an enum variant carries.
#[derive(Debug)]
pub enum IRVariantPayload {
    Struct(Vec<IRStructField>),
    Tuple(Vec<IRType>),
    Unit,
}

#[derive(Debug)]
pub struct IREnumVariant {
    pub name: String,
    pub payload: IRVariantPayload,
    pub tag: IRVariantTag,
}

#[derive(Debug)]
pub struct IREnumDecl {
    pub symbol: IRSymbol,
    pub variants: Vec<IREnumVariant>,
}

/// A union: its members, and the byte size of the widest one.
#[derive(Debug)]
pub struct IRUnionDecl {
    pub symbol: IRSymbol,
    pub members: Vec<IRType>,
    pub max_payload_size: u32,
}

/// Where a function was written.
#[derive(Debug)]
pub struct IRSourceDef {
    pub file: String,
    pub line: u32,
}

#[derive(Clone, Copy, Debug, PartialEq, Eq, Structural)]
pub struct IRFunctionParam {
    pub id: ValueId,
    pub local_id: IRLocalId,
    pub ty: IRType,
}

#[derive(Clone, Copy, Debug, PartialEq, Eq, Structural)]
pub enum IRBinOp {
    Add,
    Div,
    Eq,
    Gt,
    GtEq,
    Lt,
    LtEq,
    Mod,
    Mul,
    NotEq,
    Sub,
}

#[derive(Clone, Copy, Debug, PartialEq, Eq, Structural)]
pub enum IRUnaryOp {
    Neg,
    Not,
}

/// Which heap shape a concatenation joins.
#[derive(Clone, Copy, Debug, PartialEq, Eq, Structural)]
pub enum ConcatKind {
    Binary,
    Bits,
    String,
}

#[derive(Clone, Copy, Debug, PartialEq, Eq, Structural)]
pub enum BinaryEndian {
    Big,
    Little,
}

#[derive(Clone, Copy, Debug, PartialEq, Eq, Structural)]
pub enum BinarySign {
    Signed,
    Unsigned,
}

/// The fixed part of a binary pattern.
#[derive(Clone, Copy, Debug, PartialEq, Eq, Structural)]
pub struct LoweredBinaryMatchLayout {
    pub fixed_bits: u64,
    pub has_greedy_tail: bool,
}

/// One segment of a binary pattern, at its bit offset.
#[allow(inconsistent_fields)]
#[derive(Debug)]
pub enum LoweredBinaryPattern {
    LiteralInt { bit_offset: u64, endian: BinaryEndian, value: u64, width: u64 },
    LiteralBytes { bit_offset: u64, bytes: Vec<u8> },
    BindInt {
        bit_offset: u64,
        endian: BinaryEndian,
        local: IRLocalId,
        sign: BinarySign,
        ty: IRType,
        width: u64,
    },
    Discard,
    GreedyTail { bit_offset: u64, local: Option<IRLocalId> },
}

/// A slot that holds a boxed value.
#[derive(Clone, Copy, Debug, PartialEq, Eq, Structural)]
pub enum IRIndirectSlot {
    EnumPayload { payload_index: usize, tag: IRVariantTag, ty: IRSymbol },
    StructField { field_index: usize, struct_symbol: IRSymbol },
}

#[derive(Clone, Copy, Debug, PartialEq, Eq, Structural)]
pub struct StructFieldInit {
    pub index: u32,
    pub value: ValueId,
}

/// The operands of an enum literal.
#[derive(Debug)]
pub enum EnumPayloadInit {
    Struct(Vec<StructFieldInit>),
    Tuple(Vec<ValueId>),
    Unit,
}

/// Which traffic a receive arm takes.
#[derive(Clone, Copy, Debug, PartialEq, Eq, Structural)]
pub enum ReceiveTag {
    Business,
    IOReady,
    Lifecycle,
}

#[derive(Clone, Copy, Debug, PartialEq, Eq, Structural)]
pub struct ReceiveArm {
    pub body: IRBlockId,
    pub payload_local: IRLocalId,
    pub payload_type: IRType,
    pub tag: ReceiveTag,
    /// The byte that the runtime stamps on such messages.
    pub wire_byte: u8,
}

#[derive(Clone, Copy, Debug, PartialEq, Eq, Structural)]
pub struct ReceiveAfter {
    pub body: IRBlockId,
    pub timeout: ValueId,
}

/// The messages an arithmetic instruction panics with.
#[derive(Debug)]
pub struct FaultTexts {
    pub overflow: String,
    pub division_by_zero: String,
    pub non_finite: String,
}

#[allow(inconsistent_fields)]
#[derive(Debug)]
pub enum IRInstruction {
    BinaryMatch {
        dest: ValueId,
        layout: LoweredBinaryMatchLayout,
        segments: Vec<LoweredBinaryPattern>,
        subject: ValueId,
    },
    BinaryOp {
        dest: ValueId,
        lhs: ValueId,
        op: IRBinOp,
        operand_ty: IRType,
        rhs: ValueId,
        texts: FaultTexts,
    },
    Call { args: Vec<ValueId>, callee: IRSymbol, dest: ValueId },
    CallClosure { args: Vec<ValueId>, callee: ValueId, dest: ValueId, signature: usize },
    Clone { dest: ValueId, source: ValueId, ty: IRType },
    ClosureEquals { dest: ValueId, lhs: ValueId, rhs: ValueId, signature: usize },
    Concat { dest: ValueId, kind: ConcatKind, lhs: ValueId, rhs: ValueId },
    DeepCopy { dest: ValueId, source: ValueId, ty: IRType },
    DropLocal { local: IRLocalId, ty: IRType },
    DropValue { ty: IRType, value: ValueId },
    EnumConstruct { dest: ValueId, payload: EnumPayloadInit, tag: IRVariantTag, ty: IRSymbol },
    EnumPayloadFieldGet {
        dest: ValueId,
        payload_index: usize,
        tag: IRVariantTag,
        ty: IRSymbol,
        value: ValueId,
    },
    EnumTagGet { dest: ValueId, ty: IRSymbol, value: ValueId },
    IndirectPresent { base: ValueId, dest: ValueId, slot: IRIndirectSlot },
    LoadCapture { capture_index: usize, dest: ValueId, ty: IRType },
    LoadCaptureOf { capture_index: usize, closure: ValueId, dest: ValueId, ty: IRType },
    LocalDecl { local: IRLocalId, ty: IRType },
    LocalRead { dest: ValueId, local: IRLocalId, ty: IRType },
    LocalWrite { local: IRLocalId, ty: IRType, value: ValueId },
    MakeClosure { body: IRSymbol, captures: Vec<ValueId>, dest: ValueId },
    NumericWiden { dest: ValueId, from: IRType, to: IRType, value: ValueId },
    Receive { after: Option<ReceiveAfter>, arms: Vec<ReceiveArm> },
    SetPriority { tag: ValueId },
    Spawn {
        config: ValueId,
        config_type: IRType,
        dest: ValueId,
        ref_type: IRSymbol,
        wrapper: IRSymbol,
    },
    TupleGet { base: ValueId, dest: ValueId, index: usize, tuple: usize },
    TupleInit { dest: ValueId, elements: Vec<ValueId>, tuple: usize },
    UnaryOp { dest: ValueId, op: IRUnaryOp, operand: ValueId, operand_ty: IRType, texts: FaultTexts },
    YieldCheck,
}

/// A value that a block takes on entry.
#[derive(Clone, Copy, Debug, PartialEq, Eq, Structural)]
pub struct BlockParam {
    pub dest: ValueId,
    pub ty: IRType,
}

/// A branch to a block, with what its parameters are given.
#[derive(Debug)]
pub struct BranchTarget {
    pub args: Vec<ValueId>,
    pub block: IRBlockId,
}

#[derive(Debug)]
pub enum IRTerminator {
    Branch(BranchTarget),
    CondBranch { cond: ValueId, else_target: BranchTarget, then_target: BranchTarget },
    Return { value: Option<ValueId> },
    TailCall { args: Vec<ValueId> },
    Unreachable,
}

#[derive(Debug)]
pub struct IRBasicBlock {
    pub id: IRBlockId,
    pub instructions: Vec<IRInstruction>,
    /// A word on what it is for.
    pub label: String,
    pub params: Vec<BlockParam>,
    pub terminator: IRTerminator,
}

#[derive(Debug)]
pub struct IRFunction {
    pub blocks: Vec<IRBasicBlock>,
    pub def_location: Option<IRSourceDef>,
    pub kind: FunctionKind,
    pub params: Vec<IRFunctionParam>,
    pub return_type: IRType,
    pub symbol: IRSymbol,
}

/// How a foreign function is linked.
#[derive(Debug)]
pub struct IRForeignAttrs {
    pub link_name: Option<String>,
}

/// What a function is. Closure environments are named by their place in
/// the table of environment layouts.
#[derive(Debug)]
pub enum FunctionKind {
    CloneGlue,
    Closure { env: usize },
    CopyClosureGlue { env: usize },
    DeepCopyGlue,
    DropClosureGlue { env: usize },
    DropGlue,
    Foreign(IRForeignAttrs),
    Intrinsic(IRIntrinsicId),
    ProcessEntryWrapper,
    Regular,
    SpawnWrapper,
}

#[derive(Clone, Copy, Debug, PartialEq, Eq, Structural)]
pub enum BinaryMethod {
    At,
    ByteSize,
    Slice,
    ToBits,
    ToString,
}

#[derive(Clone, Copy, Debug, PartialEq, Eq, Structural)]
pub enum BitsMethod {
    BitSize,
    ByteAt,
    ToBinary,
}

#[derive(Clone, Copy, Debug, PartialEq, Eq, Structural)]
pub enum BitOp {
    Band,
    Bnot,
    Bor,
    Bsl,
    Bsr,
    Bxor,
}

#[derive(Clone, Copy, Debug, PartialEq, Eq, Structural)]
pub enum CPtrMethod {
    Alloc,
    Borrow,
    Copy,
    Free,
    Null,
    NullQ,
    Offset,
    Read,
    ToBinary,
    Write,
}

/// The receiver of `Debug.format`.
#[derive(Clone, Copy, Debug, PartialEq, Eq, Structural)]
pub enum DebugImpl {
    Bool,
    Float,
    Float32,
    Signed,
    Unsigned,
}

#[derive(Clone, Copy, Debug, PartialEq, Eq, Structural)]
pub enum EqualityImpl {
    Bool,
    Float,
    Int,
    String,
}

#[derive(Clone, Copy, Debug, PartialEq, Eq, Structural)]
pub enum HashImpl {
    Bool,
    Int,
    String,
}

#[derive(Clone, Copy, Debug, PartialEq, Eq, Structural)]
pub enum ListMethod {
    Append,
    Concat,
    EmptyQ,
    FromList,
    Get,
    Length,
    New,
    Pop,
    ReplaceAt,
    Slice,
}

#[derive(Clone, Copy, Debug, PartialEq, Eq, Structural)]
pub enum MapMethod {
    EmptyQ,
    FromMap,
    Get,
    HasQ,
    Length,
    New,
    Next,
    Put,
    Remove,
}

#[derive(Clone, Copy, Debug, PartialEq, Eq, Structural)]
pub enum SetMethod {
    EmptyQ,
    FromList,
    FromSet,
    HasQ,
    Insert,
    Length,
    New,
    Next,
    Remove,
}

#[derive(Clone, Copy, Debug, PartialEq, Eq, Structural)]
pub enum IntNarrowTarget {
    Int8,
    Int16,
    Int32,
    UInt8,
    UInt16,
    UInt32,
    UInt64,
}

#[derive(Clone, Copy, Debug, PartialEq, Eq, Structural)]
pub enum NumericConvert {
    FloatToFloat32,
    IntNarrow(IntNarrowTarget),
    UInt64ToInt,
}

#[derive(Clone, Copy, Debug, PartialEq, Eq, Structural)]
pub enum ParseTarget {
    Float,
    Int,
}

#[derive(Clone, Copy, Debug, PartialEq, Eq, Structural)]
pub enum RefMethod {
    AliveQ,
    Call,
    Cast,
    Kill,
    SelfRef,
    SendAfter,
    Signal,
}

#[derive(Clone, Copy, Debug, PartialEq, Eq, Structural)]
pub enum SocketMethod {
    LastError,
    RecvFromRaw,
    ResolveRaw,
}

#[derive(Clone, Copy, Debug, PartialEq, Eq, Structural)]
pub enum StringMethod {
    ByteLength,
    Get,
    Length,
    Slice,
    ToBinary,
    ToCstring,
}

/// Which hand-written body a function has.
#[derive(Clone, Copy, Debug, PartialEq, Eq, Structural)]
pub enum IRIntrinsicId {
    AdoptBinary,
    Binary(BinaryMethod),
    Bits(BitsMethod),
    Bitwise(BitOp, bool),
    CPtr(CPtrMethod),
    CString,
    Debug(DebugImpl),
    Equality(EqualityImpl),
    Hash(HashImpl),
    KernelPanic,
    List(ListMethod),
    MapOf(MapMethod),
    NumericConvert(NumericConvert),
    Parse(ParseTarget),
    Ref(RefMethod),
    ReplyToSend,
    SetOf(SetMethod),
    Socket(SocketMethod),
    String(StringMethod),
}

} // verus!
