//! The code model: LLVM types, operands and instructions as plain
//! values, and the builder that records a function body.
//!
//! A body is an append-only log. Every entry is one instruction stamped
//! with the block it belongs to, and the result of an instruction is
//! named by its place in the log. A block is the entries that carry its
//! number, in log order. Stack slots of the entry block, phi edges,
//! string literals and requested drop shims are logs of their own, so
//! emitting code only ever appends.

use vstd::prelude::*;
use vstd::utf8::encode_utf8;
use crate::ir::{IRSymbol, IRType};
use crate::runtime::Rt;
use crate::text::copy_of;

verus! {

/// A first-class LLVM type, as far as emitted code uses them.
#[derive(Clone, Copy, Debug, PartialEq, Eq, Structural)]
pub enum LType {
    Void,
    I1,
    I8,
    I16,
    I32,
    I64,
    F32,
    F64,
    /// Every pointer, whatever it points to.
    Ptr,
    /// `{ ptr buf, i64 len, i64 cap }`.
    List,
    /// `{ ptr entries, ptr states, i64 len, i64 cap }`.
    Table,
    /// `{ ptr code, ptr env }`.
    Closure,
    /// `[n x i64]`.
    Words(usize),
    /// The body of a declared struct.
    Struct(IRSymbol),
    /// The outer struct of a declared enum.
    Enum(IRSymbol),
    /// The complete struct of one enum variant: tag, padding, fields.
    Variant(IRSymbol, u8),
    /// The payload struct of one enum variant.
    Payload(IRSymbol, u8),
    /// A union's `{ i64 tag, [n x i64] payload }`.
    Union(usize),
    /// A literal struct holding a tuple's elements.
    Tuple(usize),
    /// `{ message, [3 x i64] reply slot }`.
    Envelope(IRType),
    /// What every closure environment begins with:
    /// `{ i64 rc, ptr drop, ptr copy, i64 site, ptr eq }`.
    EnvHeader,
    /// An environment layout: the header and the captures.
    Env(usize),
}

/// An operand.
#[derive(Clone, Copy, Debug, PartialEq, Eq, Structural)]
pub enum Val {
    /// The n-th parameter of the function.
    Param(usize),
    /// The result of the n-th logged instruction.
    At(usize),
    /// The address of the n-th stack slot of the entry block.
    Slot(usize),
    /// An integer constant, by its bits.
    Int(u64),
    /// A floating-point constant of the operand's type: the bits of the
    /// double that it equals.
    Float(u64),
    Null,
    Undef,
    /// The all-zero value of the operand's type.
    Zero,
    /// A constant `[3 x i64]`.
    Words(u64, u64, u64),
    /// The allocation size of a type in bytes.
    SizeOf(LType),
    /// The payload pointer of the n-th string literal of the function.
    Text(usize),
    /// The address of a declared function.
    Function(usize),
    /// The address of the drop shim of a message type.
    Shim(IRType),
    /// The address of the static environment of a closure body.
    StaticEnv(IRSymbol),
    /// The address of the process exit code.
    ExitCode,
}

#[derive(Clone, Copy, Debug, PartialEq, Eq, Structural)]
pub enum BinOp {
    Add,
    Sub,
    Mul,
    UDiv,
    SDiv,
    URem,
    SRem,
    And,
    Or,
    Xor,
    Shl,
    LShr,
    AShr,
    FAdd,
    FSub,
    FMul,
    FDiv,
    FRem,
}

/// Comparison predicates, integer ones first.
#[derive(Clone, Copy, Debug, PartialEq, Eq, Structural)]
pub enum Pred {
    Eq,
    Ne,
    Ugt,
    Uge,
    Ult,
    Ule,
    Sgt,
    Sge,
    Slt,
    Sle,
    Oeq,
    One,
    Une,
    Ogt,
    Oge,
    Olt,
    Ole,
    Uno,
    Ord,
}

#[derive(Clone, Copy, Debug, PartialEq, Eq, Structural)]
pub enum CastOp {
    Trunc,
    ZExt,
    SExt,
    FPTrunc,
    FPExt,
    SIToFP,
    UIToFP,
    BitCast,
    PtrToInt,
    IntToPtr,
}

/// LLVM's checked integer arithmetic: `{ result, i1 overflowed }`.
#[derive(Clone, Copy, Debug, PartialEq, Eq, Structural)]
pub enum Checked {
    SAdd,
    SSub,
    SMul,
    UAdd,
    USub,
    UMul,
}

/// What a call goes to.
#[derive(Clone, Copy, Debug, PartialEq, Eq, Structural)]
pub enum Callee {
    /// A function of the program, by its place among the declared ones.
    Function(usize),
    /// A function of the runtime or of libc.
    Runtime(Rt),
    /// A closure's code pointer. Its environment goes in front of the
    /// parameters of the signature.
    Pointer(Val, usize),
}

/// Arguments of a call, first one outermost.
#[derive(Debug)]
pub enum Args {
    Nil,
    Cons(Val, Box<Args>),
}

/// Arms of a switch: the matched constant and its block.
#[derive(Debug)]
pub enum Cases {
    Nil,
    Cons(u64, usize, Box<Cases>),
}

/// One instruction. Blocks are named by number.
#[derive(Debug)]
pub enum Inst {
    Bin(BinOp, LType, Val, Val),
    Neg(LType, Val),
    FNeg(LType, Val),
    Not(LType, Val),
    ITest(Pred, LType, Val, Val),
    FTest(Pred, LType, Val, Val),
    Checked(Checked, LType, Val, Val),
    /// Whether the checked operation overflowed, or its result.
    Overflowed(LType, Val),
    Unchecked(LType, Val),
    /// `llvm.fabs`.
    FAbs(LType, Val),
    Select(LType, Val, Val, Val),
    Cast(CastOp, LType, Val, LType),
    /// `getelementptr` by elements of the type.
    Gep(LType, Val, Val),
    /// The same, in bounds.
    GepIn(LType, Val, Val),
    /// The address of a struct field.
    Field(LType, Val, usize),
    Load(LType, Val),
    /// Type, value, address.
    Store(LType, Val, Val),
    Alloca(LType),
    Extract(LType, Val, usize),
    /// Aggregate type, aggregate, field type, field value, index.
    Insert(LType, Val, LType, Val, usize),
    Call(Callee, Args),
    Phi(LType),
    Br(usize),
    CondBr(Val, usize, usize),
    Switch(LType, Val, usize, Cases),
    Ret(LType, Val),
    RetVoid,
    Unreachable,
}

/// One logged instruction and the block it stands in.
#[derive(Debug)]
pub struct Entry {
    pub block: usize,
    pub inst: Inst,
}

/// One incoming edge of a phi.
#[derive(Clone, Copy, Debug, PartialEq, Eq, Structural)]
pub struct Edge {
    pub phi: Val,
    pub value: Val,
    pub from: usize,
}

/// A recorded body, mathematically.
#[verifier::ext_equal]
pub struct Code {
    pub log: Seq<Entry>,
    pub blocks: nat,
    /// What each block is for.
    pub labels: Seq<Seq<char>>,
    pub slots: Seq<LType>,
    pub edges: Seq<Edge>,
    pub texts: Seq<Seq<u8>>,
    pub shims: Seq<IRType>,
    /// The block new instructions go to.
    pub cur: usize,
}

impl Code {
    /// The code followed by one more instruction in the current block.
    pub open spec fn i(self, inst: Inst) -> Code {
        Code { log: self.log.push(Entry { block: self.cur, inst: inst }), ..self }
    }

    /// The result of the `k`-th instruction from here.
    pub open spec fn v(self, k: int) -> Val {
        Val::At((self.log.len() + k) as usize)
    }

    /// The `k`-th block from here that is not made yet.
    pub open spec fn b(self, k: int) -> usize {
        (self.blocks + k) as usize
    }

    /// The code with one more block, which is for what the word says.
    pub open spec fn word(self, word: Seq<char>) -> Code {
        Code { blocks: self.blocks + 1, labels: self.labels.push(word), ..self }
    }

    /// The code with another word for its entry block.
    pub open spec fn entry(self, word: Seq<char>) -> Code {
        Code { labels: self.labels.update(0, word), ..self }
    }

    /// The code, going on in block `block`.
    pub open spec fn at(self, block: usize) -> Code {
        Code { cur: block, ..self }
    }

    /// The code with one more stack slot.
    pub open spec fn slot(self, ty: LType) -> Code {
        Code { slots: self.slots.push(ty), ..self }
    }

    /// The address of the `k`-th stack slot from here.
    pub open spec fn sv(self, k: int) -> Val {
        Val::Slot((self.slots.len() + k) as usize)
    }

    /// The current block is ended.
    pub open spec fn capped(self) -> bool {
        ended(self.log, self.cur, self.log.len())
    }

    /// The code with one more phi edge.
    pub open spec fn edge(self, phi: Val, value: Val, from: usize) -> Code {
        Code { edges: self.edges.push(Edge { phi: phi, value: value, from: from }), ..self }
    }

    /// The code with one more string literal.
    pub open spec fn text(self, text: Seq<char>) -> Code {
        self.literal(encode_utf8(text))
    }

    /// The code with one more literal of some bytes.
    pub open spec fn literal(self, bytes: Seq<u8>) -> Code {
        Code { texts: self.texts.push(bytes), ..self }
    }

    /// The payload pointer of the `k`-th string literal from here.
    pub open spec fn tv(self, k: int) -> Val {
        Val::Text((self.texts.len() + k) as usize)
    }

    /// The code with the drop shim of `ty` among the requested ones.
    pub open spec fn shim(self, ty: IRType) -> Code {
        if self.shims.contains(ty) {
            self
        } else {
            Code { shims: self.shims.push(ty), ..self }
        }
    }
}

/// The code of a function that holds nothing but its entry block.
pub open spec fn start() -> Code {
    Code {
        log: Seq::empty(),
        blocks: 1,
        labels: seq!["entry"@],
        slots: Seq::empty(),
        edges: Seq::empty(),
        texts: Seq::empty(),
        shims: Seq::empty(),
        cur: 0,
    }
}

/// Records the body of one function.
#[derive(Debug)]
pub struct Body {
    pub log: Vec<Entry>,
    /// The blocks by number, each with a word on what it is for.
    pub labels: Vec<String>,
    pub slots: Vec<LType>,
    pub edges: Vec<Edge>,
    pub texts: Vec<Vec<u8>>,
    pub shims: Vec<IRType>,
    pub cur: usize,
}

/// Some texts as characters.
pub open spec fn words(s: Seq<String>) -> Seq<Seq<char>> {
    Seq::new(s.len(), |i: int| s[i]@)
}

impl View for Body {
    type V = Code;

    open spec fn view(&self) -> Code {
        Code {
            log: self.log@,
            blocks: self.labels@.len(),
            labels: words(self.labels@),
            slots: self.slots@,
            edges: self.edges@,
            texts: Seq::new(self.texts@.len(), |i: int| self.texts@[i]@),
            shims: self.shims@,
            cur: self.cur,
        }
    }
}

impl Body {
    /// A body with an empty entry block, ready to be filled.
    pub fn new() -> (r: Body)
        ensures
            r@ == start(),
    {
        let mut labels: Vec<String> = Vec::new();
        labels.push("entry".to_owned());
        let r = Body {
            log: Vec::new(),
            labels: labels,
            slots: Vec::new(),
            edges: Vec::new(),
            texts: Vec::new(),
            shims: Vec::new(),
            cur: 0,
        };
        assert(r@ =~= start());
        r
    }

    /// Appends an instruction to the current block and names its result.
    pub fn ins(&mut self, inst: Inst) -> (r: Val)
        ensures
            final(self)@ == old(self)@.i(inst),
            r == old(self)@.v(0),
    {
        let n: usize = self.log.len();
        self.log.push(Entry { block: self.cur, inst: inst });
        Val::At(n)
    }

    /// Adds a block, with a word on what it is for, and names it.
    pub fn block(&mut self, label: &str) -> (r: usize)
        ensures
            final(self)@ == old(self)@.word(label@),
            r == old(self)@.b(0),
    {
        let n: usize = self.labels.len();
        self.labels.push(label.to_owned());
        assert(self@.labels =~= old(self)@.labels.push(label@));
        n
    }

    /// Gives the entry block another word.
    pub fn name_entry(&mut self, label: &str)
        requires
            old(self)@.blocks > 0,
        ensures
            final(self)@ == old(self)@.entry(label@),
    {
        self.labels.set(0, label.to_owned());
        assert(self@.labels =~= old(self)@.labels.update(0, label@));
    }

    /// Goes on in another block.
    pub fn at(&mut self, block: usize)
        ensures
            final(self)@ == old(self)@.at(block),
    {
        self.cur = block;
    }

    /// Adds a stack slot to the entry block and names its address.
    pub fn slot(&mut self, ty: LType) -> (r: Val)
        ensures
            final(self)@ == old(self)@.slot(ty),
            r == old(self)@.sv(0),
    {
        let n: usize = self.slots.len();
        self.slots.push(ty);
        Val::Slot(n)
    }

    /// Whether the current block is ended.
    pub fn is_capped(&self) -> (r: bool)
        ensures
            r == self@.capped(),
    {
        let mut i: usize = self.log.len();
        while i > 0
            invariant
                i <= self.log.len(),
                self@.capped() == ended(self.log@, self.cur, i as nat),
            decreases i,
        {
            if self.log[i - 1].block == self.cur {
                return match &self.log[i - 1].inst {
                    Inst::Br(_) | Inst::CondBr(_, _, _) | Inst::Switch(_, _, _, _) => true,
                    Inst::Ret(_, _) | Inst::RetVoid | Inst::Unreachable => true,
                    _ => false,
                };
            }
            i = i - 1;
        }
        false
    }

    /// Adds an incoming edge to a phi.
    pub fn edge(&mut self, phi: Val, value: Val, from: usize)
        ensures
            final(self)@ == old(self)@.edge(phi, value, from),
    {
        self.edges.push(Edge { phi: phi, value: value, from: from });
    }

    /// Adds a string literal and names its payload pointer.
    pub fn text(&mut self, text: &str) -> (r: Val)
        ensures
            final(self)@ == old(self)@.text(text@),
            r == old(self)@.tv(0),
    {
        self.literal(text.as_bytes())
    }

    /// Adds a literal of some bytes and names its payload pointer.
    pub fn literal(&mut self, bytes: &[u8]) -> (r: Val)
        ensures
            final(self)@ == old(self)@.literal(bytes@),
            r == old(self)@.tv(0),
    {
        let n: usize = self.texts.len();
        self.texts.push(copy_of(bytes));
        assert(self@.texts =~= old(self)@.texts.push(bytes@));
        Val::Text(n)
    }

    /// Asks for the drop shim of a message type, once.
    pub fn shim(&mut self, ty: IRType) -> (r: Val)
        ensures
            final(self)@ == old(self)@.shim(ty),
            r == Val::Shim(ty),
    {
        let mut i: usize = 0;
        while i < self.shims.len()
            invariant
                i <= self.shims.len(),
                *self == *old(self),
                forall|j: int| 0 <= j < i ==> self.shims@[j] != ty,
            decreases self.shims.len() - i,
        {
            if self.shims[i] == ty {
                assert(self.shims@.contains(ty));
                return Val::Shim(ty);
            }
            i = i + 1;
        }
        assert(!self.shims@.contains(ty));
        self.shims.push(ty);
        Val::Shim(ty)
    }
}

/// No arguments.
#[verifier::allow_in_spec]
pub fn a0() -> Args
    returns
        Args::Nil,
{
    Args::Nil
}

/// One argument.
#[verifier::allow_in_spec]
pub fn a1(a: Val) -> Args
    returns
        Args::Cons(a, Box::new(Args::Nil)),
{
    Args::Cons(a, Box::new(Args::Nil))
}

/// Two arguments.
#[verifier::allow_in_spec]
pub fn a2(a: Val, b: Val) -> Args
    returns
        Args::Cons(a, Box::new(a1(b))),
{
    Args::Cons(a, Box::new(a1(b)))
}

/// Three arguments.
#[verifier::allow_in_spec]
pub fn a3(a: Val, b: Val, c: Val) -> Args
    returns
        Args::Cons(a, Box::new(a2(b, c))),
{
    Args::Cons(a, Box::new(a2(b, c)))
}

/// Four arguments.
#[verifier::allow_in_spec]
pub fn a4(a: Val, b: Val, c: Val, d: Val) -> Args
    returns
        Args::Cons(a, Box::new(a3(b, c, d))),
{
    Args::Cons(a, Box::new(a3(b, c, d)))
}

/// Five arguments.
#[verifier::allow_in_spec]
pub fn a5(a: Val, b: Val, c: Val, d: Val, e: Val) -> Args
    returns
        Args::Cons(a, Box::new(a4(b, c, d, e))),
{
    Args::Cons(a, Box::new(a4(b, c, d, e)))
}

/// The values from the `i`-th on, as arguments.
pub open spec fn args_from(vals: Seq<Val>, i: nat) -> Args
    decreases vals.len() - i,
{
    if i >= vals.len() {
        Args::Nil
    } else {
        Args::Cons(vals[i as int], Box::new(args_from(vals, i + 1)))
    }
}

/// The values as arguments.
pub fn args_of(vals: &Vec<Val>) -> (r: Args)
    ensures
        r == args_from(vals@, 0),
{
    let mut out = Args::Nil;
    let mut i: usize = vals.len();
    while i > 0
        invariant
            i <= vals.len(),
            out == args_from(vals@, i as nat),
        decreases i,
    {
        i = i - 1;
        out = Args::Cons(vals[i], Box::new(out));
    }
    out
}

/// Whether an instruction ends its block.
pub open spec fn ends_block(inst: Inst) -> bool {
    inst is Br || inst is CondBr || inst is Switch || inst is Ret || inst is RetVoid
        || inst is Unreachable
}

/// Whether the last of the first `n` entries that stands in `block` ends
/// it.
pub open spec fn ended(log: Seq<Entry>, block: usize, n: nat) -> bool
    decreases n,
{
    if n == 0 {
        false
    } else if log[n - 1].block == block {
        ends_block(log[n - 1].inst)
    } else {
        ended(log, block, (n - 1) as nat)
    }
}

/// A call of an outside function.
#[verifier::allow_in_spec]
pub fn call(rt: Rt, args: Args) -> Inst
    returns
        Inst::Call(Callee::Runtime(rt), args),
{
    Inst::Call(Callee::Runtime(rt), args)
}

/// A call of a declared function.
#[verifier::allow_in_spec]
pub fn call_fn(function: usize, args: Args) -> Inst
    returns
        Inst::Call(Callee::Function(function), args),
{
    Inst::Call(Callee::Function(function), args)
}

/// `i64` addition.
#[verifier::allow_in_spec]
pub fn iadd(a: Val, b: Val) -> Inst
    returns
        Inst::Bin(BinOp::Add, LType::I64, a, b),
{
    Inst::Bin(BinOp::Add, LType::I64, a, b)
}

/// `i64` subtraction.
#[verifier::allow_in_spec]
pub fn isub(a: Val, b: Val) -> Inst
    returns
        Inst::Bin(BinOp::Sub, LType::I64, a, b),
{
    Inst::Bin(BinOp::Sub, LType::I64, a, b)
}

/// `i64` multiplication.
#[verifier::allow_in_spec]
pub fn imul(a: Val, b: Val) -> Inst
    returns
        Inst::Bin(BinOp::Mul, LType::I64, a, b),
{
    Inst::Bin(BinOp::Mul, LType::I64, a, b)
}

/// `i64` bitwise and.
#[verifier::allow_in_spec]
pub fn iand(a: Val, b: Val) -> Inst
    returns
        Inst::Bin(BinOp::And, LType::I64, a, b),
{
    Inst::Bin(BinOp::And, LType::I64, a, b)
}

/// `i64` bitwise exclusive or.
#[verifier::allow_in_spec]
pub fn ixor(a: Val, b: Val) -> Inst
    returns
        Inst::Bin(BinOp::Xor, LType::I64, a, b),
{
    Inst::Bin(BinOp::Xor, LType::I64, a, b)
}

/// Logical right shift of an `i64`.
#[verifier::allow_in_spec]
pub fn ilshr(a: Val, b: u64) -> Inst
    returns
        Inst::Bin(BinOp::LShr, LType::I64, a, Val::Int(b)),
{
    Inst::Bin(BinOp::LShr, LType::I64, a, Val::Int(b))
}

/// Comparison of two `i64`s.
#[verifier::allow_in_spec]
pub fn itest(pred: Pred, a: Val, b: Val) -> Inst
    returns
        Inst::ITest(pred, LType::I64, a, b),
{
    Inst::ITest(pred, LType::I64, a, b)
}

/// Comparison of two bytes.
#[verifier::allow_in_spec]
pub fn itest8(pred: Pred, a: Val, b: Val) -> Inst
    returns
        Inst::ITest(pred, LType::I8, a, b),
{
    Inst::ITest(pred, LType::I8, a, b)
}

/// Whether a pointer is null.
#[verifier::allow_in_spec]
pub fn is_null(a: Val) -> Inst
    returns
        Inst::ITest(Pred::Eq, LType::Ptr, a, Val::Null),
{
    Inst::ITest(Pred::Eq, LType::Ptr, a, Val::Null)
}

/// The address some bytes past a pointer.
#[verifier::allow_in_spec]
pub fn gep(ptr: Val, bytes: Val) -> Inst
    returns
        Inst::Gep(LType::I8, ptr, bytes),
{
    Inst::Gep(LType::I8, ptr, bytes)
}

/// The address some bytes past a pointer, inside its object.
#[verifier::allow_in_spec]
pub fn gep_in(ptr: Val, bytes: Val) -> Inst
    returns
        Inst::GepIn(LType::I8, ptr, bytes),
{
    Inst::GepIn(LType::I8, ptr, bytes)
}

/// An `i64` constant.
#[verifier::allow_in_spec]
pub fn num(n: u64) -> Val
    returns
        Val::Int(n),
{
    Val::Int(n)
}

} // verus!
