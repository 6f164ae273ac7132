//! Runs recorded bodies on a small machine and compares what comes out
//! with ordinary Rust.

use std::collections::{BTreeMap, HashMap};

use koja_ir_llvm::ctx::{ClosureSite, EmitContext, Glue, GlueKind};
use koja_ir_llvm::ir::{
    BinaryEndian, BinaryMethod, BinarySign, BitOp, BlockParam, BranchTarget, CPtrMethod, ConcatKind, EnumPayloadInit,
    EqualityImpl, FaultTexts, FunctionKind, HashImpl, IRBasicBlock, IRBinOp, IRBlockId, IREnumDecl, IREnumVariant, IRFunction,
    IRFunctionParam, IRInstruction, IRIntrinsicId, IRLocalId, IRSignature, IRSymbol, IRTerminator, IRType,
    IRUnaryOp, IRVariantPayload, IRVariantTag, IntNarrowTarget, ListMethod,
    LoweredBinaryMatchLayout, LoweredBinaryPattern, MapMethod, NumericConvert, SetMethod, ValueId,
};
use koja_ir_llvm::llvm::{Args, BinOp, Body, Callee, Cases, CastOp, Checked, Inst, LType, Pred, Val};
use koja_ir_llvm::program::{declare_all, define_all, measure_types};
use koja_ir_llvm::runtime::Rt;

type Bytes = Vec<u8>;

fn word(x: u64) -> Bytes {
    x.to_le_bytes().to_vec()
}

fn num(bytes: &[u8]) -> u64 {
    let mut x = 0u64;
    for (i, b) in bytes.iter().enumerate().take(8) {
        x |= (*b as u64) << (8 * i);
    }
    x
}

fn signed(bytes: &[u8], bits: u32) -> i64 {
    let x = num(bytes);
    if bits == 64 {
        x as i64
    } else {
        ((x << (64 - bits)) as i64) >> (64 - bits)
    }
}

fn bits_of(ty: LType) -> u32 {
    match ty {
        LType::I1 => 1,
        LType::I8 => 8,
        LType::I16 => 16,
        LType::I32 => 32,
        _ => 64,
    }
}

/// A running program: its bodies and its memory.
struct Vm {
    c: EmitContext,
    bodies: Vec<Body>,
    memory: HashMap<u64, u8>,
    next: u64,
    live: BTreeMap<u64, u64>,
    statics: BTreeMap<usize, u64>,
}

/// Where code addresses begin.
const CODE: u64 = 0x7000_0000_0000;

impl Vm {
    fn size(&self, ty: LType) -> usize {
        match ty {
            LType::I1 | LType::I8 => 1,
            LType::I16 => 2,
            LType::I32 | LType::F32 => 4,
            LType::I64 | LType::F64 | LType::Ptr => 8,
            LType::Closure => 16,
            LType::List => 24,
            LType::Table => 32,
            LType::Void => 0,
            LType::Words(n) => 8 * n,
            LType::Env(e) => 40 + self.c.envs[e].iter().map(|x| self.size(lower(*x)).max(8)).sum::<usize>(),
            other => self.c.abi_size(other) as usize,
        }
    }

    /// The value types of an aggregate's fields.
    fn fields(&self, ty: LType) -> Vec<LType> {
        match ty {
            LType::List => vec![LType::Ptr, LType::I64, LType::I64],
            LType::Table => vec![LType::Ptr, LType::Ptr, LType::I64, LType::I64],
            LType::Closure => vec![LType::Ptr, LType::Ptr],
            LType::EnvHeader => vec![LType::I64, LType::Ptr, LType::Ptr, LType::I64, LType::Ptr],
            LType::Env(e) => {
                let mut fields = self.fields(LType::EnvHeader);
                fields.extend(self.c.envs[e].iter().map(|x| lower(*x)));
                fields
            }
            LType::Tuple(t) => self.c.tuples[t].iter().map(|x| lower(*x)).collect(),
            LType::Payload(symbol, tag) => {
                let decl = self.c.enums.iter().find(|d| d.symbol == symbol).unwrap();
                match &decl.variants[tag as usize].payload {
                    IRVariantPayload::Tuple(slots) => slots.iter().map(|x| lower(*x)).collect(),
                    IRVariantPayload::Struct(fields) => fields.iter().map(|x| lower(x.ir_type)).collect(),
                    IRVariantPayload::Unit => vec![],
                }
            }
            other => panic!("no fields in {other:?}"),
        }
    }

    fn offset(&self, ty: LType, index: usize) -> u64 {
        if let LType::Variant(_, _) = ty {
            return if index == 2 { 8 } else { index as u64 };
        }
        let mut at = 0usize;
        for (i, field) in self.fields(ty).iter().enumerate() {
            let size = self.size(*field);
            let align = size.clamp(1, 8);
            at = at.div_ceil(align) * align;
            if i == index {
                return at as u64;
            }
            at += size;
        }
        unreachable!()
    }

    fn reserve(&mut self, size: u64) -> u64 {
        let at = self.next;
        self.next += size.max(1).div_ceil(16) * 16 + 16;
        at
    }

    fn read(&self, at: u64, n: usize) -> Bytes {
        (0..n as u64).map(|i| *self.memory.get(&(at + i)).unwrap_or(&0xaa)).collect()
    }

    fn write(&mut self, at: u64, bytes: &[u8]) {
        for (i, b) in bytes.iter().enumerate() {
            self.memory.insert(at + i as u64, *b);
        }
    }

    /// A heap payload that holds some bytes, and a NUL behind them.
    fn payload(&mut self, bytes: &[u8]) -> u64 {
        let base = self.reserve(16 + bytes.len() as u64 + 1);
        self.write(base, &word(1));
        self.write(base + 8, &word(8 * bytes.len() as u64));
        self.write(base + 16, bytes);
        self.write(base + 16 + bytes.len() as u64, &[0]);
        base + 16
    }

    fn payload_bytes(&self, p: u64) -> Bytes {
        let bits = num(&self.read(p - 8, 8));
        self.read(p, (bits / 8) as usize)
    }

    fn count(&self, p: u64) -> u64 {
        num(&self.read(p - 16, 8))
    }

    fn find(&self, name: &str) -> usize {
        let symbol = self.c.symbols.iter().position(|s| s == name).unwrap();
        self.c.declared.iter().position(|d| d.symbol.0 == symbol).unwrap()
    }

    fn run(&mut self, name: &str, args: &[Bytes]) -> Bytes {
        let at = self.find(name);
        self.call(at, args).unwrap()
    }

    fn fails(&mut self, name: &str, args: &[Bytes]) -> String {
        let at = self.find(name);
        self.call(at, args).unwrap_err()
    }

    fn runtime(&mut self, rt: Rt, args: &[Bytes]) -> Result<Bytes, String> {
        let n = |i: usize| num(&args[i]);
        Ok(match rt {
            Rt::Malloc => {
                let at = self.reserve(n(0));
                self.live.insert(at, n(0));
                word(at)
            }
            Rt::Free => {
                assert!(self.live.remove(&n(0)).is_some(), "free of a block that is not there");
                vec![]
            }
            Rt::Memcpy => {
                let bytes = self.read(n(1), n(2) as usize);
                self.write(n(0), &bytes);
                word(n(0))
            }
            Rt::Memset => {
                let bytes = vec![n(1) as u8; n(2) as usize];
                self.write(n(0), &bytes);
                word(n(0))
            }
            Rt::MemCompare => {
                let (a, b) = (self.read(n(0), n(2) as usize), self.read(n(1), n(2) as usize));
                word(u64::from(a != b))
            }
            Rt::StringEq => word(u64::from(self.payload_bytes(n(0)) == self.payload_bytes(n(1)))),
            Rt::RcInc | Rt::RcDec => {
                if n(0) != 0 {
                    let rc = num(&self.read(n(0), 8));
                    let next = if rt == Rt::RcInc { rc + 1 } else { rc - 1 };
                    self.write(n(0), &word(next));
                }
                vec![]
            }
            Rt::HeapDeepCopy => {
                let bytes = self.payload_bytes(n(0));
                let at = self.payload(&bytes);
                word(at)
            }
            Rt::ClosureRcDec => {
                let rc = num(&self.read(n(0), 8));
                if (rc as i64) >= 0 {
                    self.write(n(0), &word(rc - 1));
                    let drop = num(&self.read(n(0) + 8, 8));
                    if rc == 1 && drop != 0 {
                        self.call((drop - CODE) as usize, &[word(n(0))])?;
                    }
                }
                vec![]
            }
            Rt::ClosureDeepCopy => {
                let copy = num(&self.read(n(0) + 16, 8));
                if copy == 0 {
                    word(n(0))
                } else {
                    self.call((copy - CODE) as usize, &[word(n(0))])?
                }
            }
            Rt::BinarySlice => {
                let bytes = self.payload_bytes(n(0));
                let part = bytes[n(1) as usize..n(2) as usize].to_vec();
                word(self.payload(&part))
            }
            Rt::Panic => return Err(String::from_utf8(self.payload_bytes(n(0))).unwrap()),
            other => panic!("{other:?} is not here"),
        })
    }

    fn call(&mut self, f: usize, args: &[Bytes]) -> Result<Bytes, String> {
        let mut blocks: Vec<Vec<usize>> = vec![vec![]; self.bodies[f].labels.len()];
        for (i, entry) in self.bodies[f].log.iter().enumerate() {
            blocks[entry.block].push(i);
        }
        let slot_types = self.bodies[f].slots.clone();
        let slots: Vec<u64> = slot_types.iter().map(|ty| self.reserve(self.size(*ty) as u64)).collect();
        let texts: Vec<Vec<u8>> = self.bodies[f].texts.clone();
        let texts: Vec<u64> = texts.iter().map(|t| self.payload(t)).collect();
        let mut fr = Frame { args: args.to_vec(), slots, texts, results: HashMap::new() };
        let (mut block, mut from) = (0usize, usize::MAX);
        loop {
            let entered = fr.results.clone();
            let mut next = None;
            for at in blocks[block].clone() {
                if let Some(step) = self.step(f, &mut fr, &entered, at, from)? {
                    match step {
                        Step::Go(to) => next = Some(to),
                        Step::Done(bytes) => return Ok(bytes),
                    }
                }
            }
            from = block;
            block = next.expect("a block must end");
        }
    }

    fn value(&self, fr: &Frame, v: Val, ty: LType) -> Bytes {
        let n = self.size(ty);
        let mut bytes = match v {
            Val::Param(i) => fr.args[i].clone(),
            Val::At(i) => fr.results[&i].clone(),
            Val::Slot(i) => word(fr.slots[i]),
            Val::Int(k) => word(k),
            Val::Float(k) => {
                if ty == LType::F32 {
                    (f64::from_bits(k) as f32).to_le_bytes().to_vec()
                } else {
                    word(k)
                }
            }
            Val::Null => word(0),
            Val::Undef | Val::Zero => vec![0; n],
            Val::SizeOf(ty) => word(self.size(ty) as u64),
            Val::Text(i) => word(fr.texts[i]),
            Val::Function(k) => word(CODE + k as u64),
            Val::StaticEnv(s) => word(self.statics[&s.0]),
            Val::Words(a, b, c) => [word(a), word(b), word(c)].concat(),
            other => panic!("{other:?} is not here"),
        };
        bytes.resize(n, 0);
        bytes
    }

    fn integer(&self, fr: &Frame, v: Val, ty: LType) -> u64 {
        num(&self.value(fr, v, ty))
    }

    fn cut(&self, ty: LType, x: u64) -> Bytes {
        let bits = bits_of(ty);
        let x = if bits == 64 { x } else { x & ((1 << bits) - 1) };
        word(x)[..self.size(ty)].to_vec()
    }

    fn step(
        &mut self,
        f: usize,
        fr: &mut Frame,
        entered: &HashMap<usize, Bytes>,
        at: usize,
        from: usize,
    ) -> Result<Option<Step>, String> {
        let inst = clone_inst(&self.bodies[f].log[at].inst);
        let mut result: Option<Bytes> = None;
        match inst {
            Inst::Bin(op, ty, a, b) => {
                let (x, y) = (self.integer(fr, a, ty), self.integer(fr, b, ty));
                let bits = bits_of(ty);
                let (sx, sy) = (signed(&word(x), bits), signed(&word(y), bits));
                let (fx, fy) = (self.float(fr, a, ty), self.float(fr, b, ty));
                result = Some(match op {
                    BinOp::Add => self.cut(ty, x.wrapping_add(y)),
                    BinOp::Sub => self.cut(ty, x.wrapping_sub(y)),
                    BinOp::Mul => self.cut(ty, x.wrapping_mul(y)),
                    BinOp::UDiv => self.cut(ty, x / y),
                    BinOp::URem => self.cut(ty, x % y),
                    BinOp::SDiv => self.cut(ty, (sx / sy) as u64),
                    BinOp::SRem => self.cut(ty, (sx % sy) as u64),
                    BinOp::And => self.cut(ty, x & y),
                    BinOp::Or => self.cut(ty, x | y),
                    BinOp::Xor => self.cut(ty, x ^ y),
                    BinOp::Shl => self.cut(ty, x << y),
                    BinOp::LShr => self.cut(ty, x >> y),
                    BinOp::AShr => self.cut(ty, (sx >> y) as u64),
                    BinOp::FAdd => self.float_bytes(ty, fx + fy),
                    BinOp::FSub => self.float_bytes(ty, fx - fy),
                    BinOp::FMul => self.float_bytes(ty, fx * fy),
                    BinOp::FDiv => self.float_bytes(ty, fx / fy),
                    BinOp::FRem => self.float_bytes(ty, fx % fy),
                });
            }
            Inst::Neg(ty, a) => result = Some(self.cut(ty, 0u64.wrapping_sub(self.integer(fr, a, ty)))),
            Inst::Not(ty, a) => result = Some(self.cut(ty, !self.integer(fr, a, ty))),
            Inst::FNeg(ty, a) => result = Some(self.float_bytes(ty, -self.float(fr, a, ty))),
            Inst::FAbs(ty, a) => result = Some(self.float_bytes(ty, self.float(fr, a, ty).abs())),
            Inst::ITest(pred, ty, a, b) => {
                let (x, y) = (self.integer(fr, a, ty), self.integer(fr, b, ty));
                let bits = bits_of(ty);
                let (sx, sy) = (signed(&word(x), bits), signed(&word(y), bits));
                let yes = match pred {
                    Pred::Eq => x == y,
                    Pred::Ne => x != y,
                    Pred::Ugt => x > y,
                    Pred::Uge => x >= y,
                    Pred::Ult => x < y,
                    Pred::Ule => x <= y,
                    Pred::Sgt => sx > sy,
                    Pred::Sge => sx >= sy,
                    Pred::Slt => sx < sy,
                    Pred::Sle => sx <= sy,
                    other => panic!("{other:?} is not here"),
                };
                result = Some(vec![u8::from(yes)]);
            }
            Inst::FTest(pred, ty, a, b) => {
                let (x, y) = (self.float(fr, a, ty), self.float(fr, b, ty));
                let yes = match pred {
                    Pred::Oeq => x == y,
                    Pred::One => x < y || x > y,
                    Pred::Ogt => x > y,
                    Pred::Oge => x >= y,
                    Pred::Olt => x < y,
                    Pred::Ole => x <= y,
                    other => panic!("{other:?} is not here"),
                };
                result = Some(vec![u8::from(yes)]);
            }
            Inst::Checked(op, ty, a, b) => {
                let bits = bits_of(ty);
                let (x, y) = (self.value(fr, a, ty), self.value(fr, b, ty));
                let s = matches!(op, Checked::SAdd | Checked::SSub | Checked::SMul);
                let wide = |v: &[u8]| if s { signed(v, bits) as i128 } else { num(v) as i128 };
                let (x, y) = (wide(&x), wide(&y));
                let r = match op {
                    Checked::SAdd | Checked::UAdd => x + y,
                    Checked::SSub | Checked::USub => x - y,
                    Checked::SMul | Checked::UMul => x * y,
                };
                let (lo, hi) = if s {
                    (-(1i128 << (bits - 1)), (1i128 << (bits - 1)) - 1)
                } else {
                    (0, (1i128 << bits) - 1)
                };
                let mut bytes = self.cut(ty, r as u64);
                bytes.push(u8::from(r < lo || r > hi));
                result = Some(bytes);
            }
            Inst::Unchecked(ty, a) => {
                let Val::At(i) = a else { panic!() };
                result = Some(fr.results[&i][..self.size(ty)].to_vec());
            }
            Inst::Overflowed(ty, a) => {
                let Val::At(i) = a else { panic!() };
                result = Some(vec![fr.results[&i][self.size(ty)]]);
            }
            Inst::Select(ty, p, a, b) => {
                let yes = self.integer(fr, p, LType::I1) == 1;
                result = Some(self.value(fr, if yes { a } else { b }, ty));
            }
            Inst::Cast(op, from_ty, a, to) => {
                let x = self.integer(fr, a, from_ty);
                result = Some(match op {
                    CastOp::Trunc | CastOp::ZExt | CastOp::PtrToInt | CastOp::IntToPtr => self.cut(to, x),
                    CastOp::SExt => self.cut(to, signed(&word(x), bits_of(from_ty)) as u64),
                    CastOp::FPExt | CastOp::FPTrunc => self.float_bytes(to, self.float(fr, a, from_ty)),
                    other => panic!("{other:?} is not here"),
                });
            }
            Inst::Gep(ty, p, i) | Inst::GepIn(ty, p, i) => {
                let step = self.integer(fr, i, LType::I64).wrapping_mul(self.size(ty) as u64);
                result = Some(word(self.integer(fr, p, LType::Ptr).wrapping_add(step)));
            }
            Inst::Field(ty, p, i) => {
                result = Some(word(self.integer(fr, p, LType::Ptr) + self.offset(ty, i)));
            }
            Inst::Load(ty, p) => result = Some(self.read(self.integer(fr, p, LType::Ptr), self.size(ty))),
            Inst::Store(ty, v, p) => {
                let bytes = self.value(fr, v, ty);
                self.write(self.integer(fr, p, LType::Ptr), &bytes);
            }
            Inst::Alloca(ty) => {
                let at = self.reserve(self.size(ty) as u64);
                result = Some(word(at));
            }
            Inst::Extract(ty, v, i) => {
                let whole = self.value(fr, v, ty);
                let (o, n) = (self.offset(ty, i) as usize, self.size(self.fields(ty)[i]));
                result = Some(whole[o..o + n].to_vec());
            }
            Inst::Insert(ty, v, part_ty, part, i) => {
                let mut whole = self.value(fr, v, ty);
                let o = self.offset(ty, i) as usize;
                let bytes = self.value(fr, part, part_ty);
                whole[o..o + bytes.len()].copy_from_slice(&bytes);
                result = Some(whole);
            }
            Inst::Call(callee, args) => {
                let mut values = Vec::new();
                let mut rest = &args;
                let types: Vec<LType> = match callee {
                    Callee::Function(k) => self.c.declared[k].params.clone(),
                    Callee::Pointer(_, s) => {
                        let mut types = vec![LType::Ptr];
                        types.extend(self.c.signatures[s].params.iter().map(|x| lower(*x)));
                        types
                    }
                    Callee::Runtime(_) => vec![LType::I64; 8],
                };
                while let Args::Cons(v, more) = rest {
                    values.push(self.value(fr, *v, types[values.len()]));
                    rest = more;
                }
                result = Some(match callee {
                    Callee::Function(k) => self.call(k, &values)?,
                    Callee::Runtime(rt) => self.runtime(rt, &values)?,
                    Callee::Pointer(p, _) => {
                        let code = self.integer(fr, p, LType::Ptr) - CODE;
                        self.call(code as usize, &values)?
                    }
                });
            }
            Inst::Phi(ty) => {
                let edge = self.bodies[f]
                    .edges
                    .iter()
                    .find(|e| e.phi == Val::At(at) && e.from == from)
                    .expect("an edge for every way in");
                let mut before = Frame {
                    args: fr.args.clone(),
                    slots: fr.slots.clone(),
                    texts: fr.texts.clone(),
                    results: HashMap::new(),
                };
                std::mem::swap(&mut before.results, &mut entered.clone());
                result = Some(self.value(&before, edge.value, ty));
            }
            Inst::Br(to) => return Ok(Some(Step::Go(to))),
            Inst::CondBr(p, yes, no) => {
                let go = if self.integer(fr, p, LType::I1) == 1 { yes } else { no };
                return Ok(Some(Step::Go(go)));
            }
            Inst::Switch(ty, v, default, cases) => {
                let x = self.integer(fr, v, ty);
                let mut rest = &cases;
                while let Cases::Cons(k, to, more) = rest {
                    if *k == x {
                        return Ok(Some(Step::Go(*to)));
                    }
                    rest = more;
                }
                return Ok(Some(Step::Go(default)));
            }
            Inst::Ret(ty, v) => return Ok(Some(Step::Done(self.value(fr, v, ty)))),
            Inst::RetVoid => return Ok(Some(Step::Done(vec![]))),
            Inst::Unreachable => panic!("unreachable code was reached"),
        }
        if let Some(bytes) = result {
            fr.results.insert(at, bytes);
        }
        Ok(None)
    }

    fn float(&self, fr: &Frame, v: Val, ty: LType) -> f64 {
        match ty {
            LType::F32 => f32::from_bits(self.integer(fr, v, ty) as u32) as f64,
            LType::F64 => f64::from_bits(self.integer(fr, v, ty)),
            _ => 0.0,
        }
    }

    fn float_bytes(&self, ty: LType, x: f64) -> Bytes {
        if ty == LType::F32 {
            (x as f32).to_le_bytes().to_vec()
        } else {
            x.to_le_bytes().to_vec()
        }
    }
}

struct Frame {
    args: Vec<Bytes>,
    slots: Vec<u64>,
    texts: Vec<u64>,
    results: HashMap<usize, Bytes>,
}

enum Step {
    Go(usize),
    Done(Bytes),
}

fn clone_args(args: &Args) -> Args {
    match args {
        Args::Nil => Args::Nil,
        Args::Cons(v, rest) => Args::Cons(*v, Box::new(clone_args(rest))),
    }
}

fn clone_cases(cases: &Cases) -> Cases {
    match cases {
        Cases::Nil => Cases::Nil,
        Cases::Cons(k, to, rest) => Cases::Cons(*k, *to, Box::new(clone_cases(rest))),
    }
}

fn clone_inst(inst: &Inst) -> Inst {
    match inst {
        Inst::Bin(a, b, c, d) => Inst::Bin(*a, *b, *c, *d),
        Inst::Neg(a, b) => Inst::Neg(*a, *b),
        Inst::FNeg(a, b) => Inst::FNeg(*a, *b),
        Inst::Not(a, b) => Inst::Not(*a, *b),
        Inst::ITest(a, b, c, d) => Inst::ITest(*a, *b, *c, *d),
        Inst::FTest(a, b, c, d) => Inst::FTest(*a, *b, *c, *d),
        Inst::Checked(a, b, c, d) => Inst::Checked(*a, *b, *c, *d),
        Inst::Overflowed(a, b) => Inst::Overflowed(*a, *b),
        Inst::Unchecked(a, b) => Inst::Unchecked(*a, *b),
        Inst::FAbs(a, b) => Inst::FAbs(*a, *b),
        Inst::Select(a, b, c, d) => Inst::Select(*a, *b, *c, *d),
        Inst::Cast(a, b, c, d) => Inst::Cast(*a, *b, *c, *d),
        Inst::Gep(a, b, c) => Inst::Gep(*a, *b, *c),
        Inst::GepIn(a, b, c) => Inst::GepIn(*a, *b, *c),
        Inst::Field(a, b, c) => Inst::Field(*a, *b, *c),
        Inst::Load(a, b) => Inst::Load(*a, *b),
        Inst::Store(a, b, c) => Inst::Store(*a, *b, *c),
        Inst::Alloca(a) => Inst::Alloca(*a),
        Inst::Extract(a, b, c) => Inst::Extract(*a, *b, *c),
        Inst::Insert(a, b, c, d, e) => Inst::Insert(*a, *b, *c, *d, *e),
        Inst::Call(a, b) => Inst::Call(*a, clone_args(b)),
        Inst::Phi(a) => Inst::Phi(*a),
        Inst::Br(a) => Inst::Br(*a),
        Inst::CondBr(a, b, c) => Inst::CondBr(*a, *b, *c),
        Inst::Switch(a, b, c, d) => Inst::Switch(*a, *b, *c, clone_cases(d)),
        Inst::Ret(a, b) => Inst::Ret(*a, *b),
        Inst::RetVoid => Inst::RetVoid,
        Inst::Unreachable => Inst::Unreachable,
    }
}

fn lower(ty: IRType) -> LType {
    match ty {
        IRType::Bool => LType::I1,
        IRType::Int8 | IRType::UInt8 => LType::I8,
        IRType::Int16 | IRType::UInt16 => LType::I16,
        IRType::Int32 | IRType::UInt32 => LType::I32,
        IRType::Int64 | IRType::UInt64 => LType::I64,
        IRType::Float32 => LType::F32,
        IRType::Float64 => LType::F64,
        IRType::Enum(s) => LType::Enum(s),
        IRType::Struct(s) => LType::Struct(s),
        IRType::Tuple(t) => LType::Tuple(t),
        IRType::List(_) => LType::List,
        IRType::Function(_) => LType::Closure,
        IRType::MapOf(_, _) | IRType::SetOf(_) => LType::Table,
        _ => LType::Ptr,
    }
}

struct World {
    c: EmitContext,
    functions: Vec<IRFunction>,
}

fn world() -> World {
    World {
        c: EmitContext {
            symbols: Vec::new(),
            types: Vec::new(),
            tuples: Vec::new(),
            signatures: Vec::new(),
            structs: Vec::new(),
            enums: Vec::new(),
            unions: Vec::new(),
            envs: Vec::new(),
            closures: Vec::new(),
            glue: Vec::new(),
            declared: Vec::new(),
            measured: Vec::new(),
        },
        functions: Vec::new(),
    }
}

impl World {
    fn symbol(&mut self, name: &str) -> IRSymbol {
        if let Some(i) = self.c.symbols.iter().position(|s| s == name) {
            return IRSymbol(i);
        }
        self.c.symbols.push(name.to_string());
        IRSymbol(self.c.symbols.len() - 1)
    }

    fn node(&mut self, ty: IRType) -> usize {
        self.c.types.push(ty);
        self.c.types.len() - 1
    }

    fn enumeration(&mut self, name: &str, variants: &[(&str, &[IRType])]) -> IRType {
        let symbol = self.symbol(name);
        let variants = variants
            .iter()
            .enumerate()
            .map(|(i, (name, slots))| IREnumVariant {
                name: name.to_string(),
                payload: if slots.is_empty() {
                    IRVariantPayload::Unit
                } else {
                    IRVariantPayload::Tuple(slots.to_vec())
                },
                tag: IRVariantTag(i as u8),
            })
            .collect();
        self.c.enums.push(IREnumDecl { symbol, variants });
        IRType::Enum(symbol)
    }

    fn function(&mut self, name: &str, kind: FunctionKind, params: &[IRType], ret: IRType) -> usize {
        let symbol = self.symbol(name);
        self.functions.push(IRFunction {
            blocks: Vec::new(),
            def_location: None,
            kind,
            params: params
                .iter()
                .enumerate()
                .map(|(i, ty)| IRFunctionParam {
                    id: ValueId(i as u32),
                    local_id: IRLocalId(i as u32),
                    ty: *ty,
                })
                .collect(),
            return_type: ret,
            symbol,
        });
        self.functions.len() - 1
    }

    fn intrinsic(&mut self, name: &str, id: IRIntrinsicId, params: &[IRType], ret: IRType) {
        self.function(name, FunctionKind::Intrinsic(id), params, ret);
    }

    fn regular(
        &mut self,
        name: &str,
        params: &[IRType],
        ret: IRType,
        instructions: Vec<IRInstruction>,
        result: Option<ValueId>,
    ) {
        let at = self.function(name, FunctionKind::Regular, params, ret);
        self.functions[at].blocks = vec![IRBasicBlock {
            id: IRBlockId(0),
            label: "bb".to_string(),
            instructions,
            params: Vec::new(),
            terminator: IRTerminator::Return { value: result },
        }];
    }

    fn key_helpers(&mut self) {
        self.intrinsic("Global.Int.hash", IRIntrinsicId::Hash(HashImpl::Int), &[IRType::Int64], IRType::Int64);
        self.intrinsic(
            "Global.Int.eq",
            IRIntrinsicId::Equality(EqualityImpl::Int),
            &[IRType::Int64, IRType::Int64],
            IRType::Bool,
        );
        self.intrinsic("Global.String.hash", IRIntrinsicId::Hash(HashImpl::String), &[IRType::String], IRType::Int64);
        self.intrinsic(
            "Global.String.eq",
            IRIntrinsicId::Equality(EqualityImpl::String),
            &[IRType::String, IRType::String],
            IRType::Bool,
        );
    }

    fn boot(mut self) -> Vm {
        measure_types(&mut self.c, &self.functions).unwrap();
        declare_all(&mut self.c, &self.functions);
        let bodies = define_all(&self.c, &self.functions).unwrap();
        let mut vm = Vm {
            c: self.c,
            bodies,
            memory: HashMap::new(),
            next: 0x1_0000,
            live: BTreeMap::new(),
            statics: BTreeMap::new(),
        };
        for i in 0..vm.c.closures.len() {
            let (body, site) = (vm.c.closures[i].body.0, vm.c.closures[i].site_id);
            let at = vm.reserve(40);
            vm.write(at, &[word(1 << 63), word(0), word(0), word(site), word(0)].concat());
            vm.statics.insert(body, at);
        }
        vm
    }
}

fn v(id: u32) -> ValueId {
    ValueId(id)
}

fn texts() -> FaultTexts {
    FaultTexts {
        overflow: "integer overflow".to_string(),
        division_by_zero: "division by zero".to_string(),
        non_finite: "not finite".to_string(),
    }
}

/// The payload of the first variant of an option or result, if it is that
/// variant.
fn first(bytes: &[u8], n: usize) -> Option<Bytes> {
    if bytes[0] == 0 {
        Some(bytes[8..8 + n].to_vec())
    } else {
        assert_eq!(bytes[0], 1);
        None
    }
}

fn splitmix(x: u64) -> u64 {
    let a = (x ^ (x >> 30)).wrapping_mul(0xbf58476d1ce4e5b9);
    let b = (a ^ (a >> 27)).wrapping_mul(0x94d049bb133111eb);
    b ^ (b >> 31)
}

fn fnv(bytes: &[u8]) -> u64 {
    bytes.iter().fold(0xcbf29ce484222325, |h, b| (h ^ *b as u64).wrapping_mul(0x100000001b3))
}

#[test]
fn integers_hash_through_the_finalizer() {
    let mut w = world();
    w.intrinsic("h64", IRIntrinsicId::Hash(HashImpl::Int), &[IRType::Int64], IRType::Int64);
    w.intrinsic("h8", IRIntrinsicId::Hash(HashImpl::Int), &[IRType::Int8], IRType::Int64);
    w.intrinsic("hb", IRIntrinsicId::Hash(HashImpl::Bool), &[IRType::Bool], IRType::Int64);
    let mut vm = w.boot();
    for x in [0u64, 1, 2, 42, 1 << 40, u64::MAX, 0x8000_0000_0000_0000] {
        assert_eq!(num(&vm.run("h64", &[word(x)])), splitmix(x));
    }
    assert_eq!(num(&vm.run("h64", &[word(1)])), 0x5692161d100b05e5);
    assert_eq!(num(&vm.run("h8", &[vec![0xff]])), splitmix(0xff));
    assert_eq!(num(&vm.run("hb", &[vec![1]])), splitmix(1));
}

#[test]
fn strings_hash_byte_by_byte() {
    let mut w = world();
    w.intrinsic("h", IRIntrinsicId::Hash(HashImpl::String), &[IRType::String], IRType::Int64);
    let mut vm = w.boot();
    for text in ["", "a", "foobar", "koja", "äöü", "a longer text, with more than a few bytes in it"] {
        let p = vm.payload(text.as_bytes());
        assert_eq!(num(&vm.run("h", &[word(p)])), fnv(text.as_bytes()));
    }
    let p = vm.payload(b"foobar");
    assert_eq!(num(&vm.run("h", &[word(p)])), 0x85944171f73967e8);
}

#[test]
fn equality_compares_values() {
    let mut w = world();
    w.key_helpers();
    w.intrinsic("feq", IRIntrinsicId::Equality(EqualityImpl::Float), &[IRType::Float64, IRType::Float64], IRType::Bool);
    let mut vm = w.boot();
    assert_eq!(vm.run("Global.Int.eq", &[word(7), word(7)]), [1]);
    assert_eq!(vm.run("Global.Int.eq", &[word(7), word(8)]), [0]);
    let (a, b, c) = (vm.payload(b"one"), vm.payload(b"one"), vm.payload(b"two"));
    assert_eq!(vm.run("Global.String.eq", &[word(a), word(b)]), [1]);
    assert_eq!(vm.run("Global.String.eq", &[word(a), word(c)]), [0]);
    let (d, e, f) = (vm.payload(&[97, 0, 98]), vm.payload(&[97, 0, 99]), vm.payload(&[97, 0, 98]));
    assert_eq!(vm.run("Global.String.eq", &[word(d), word(e)]), [0]);
    assert_eq!(vm.run("Global.String.eq", &[word(d), word(f)]), [1]);
    let nan = f64::NAN.to_le_bytes().to_vec();
    assert_eq!(vm.run("feq", &[nan.clone(), nan]), [0]);
    let one = 1.0f64.to_le_bytes().to_vec();
    assert_eq!(vm.run("feq", &[one.clone(), one]), [1]);
}

fn list_world(element: IRType) -> World {
    let mut w = world();
    let node = w.node(element);
    let list = IRType::List(node);
    let option = w.enumeration("Global.Option_$E$", &[("Some", &[element]), ("None", &[])]);
    w.c.tuples.push(vec![option, list]);
    let pair = IRType::Tuple(w.c.tuples.len() - 1);
    let l = IRIntrinsicId::List;
    w.intrinsic("L.new", l(ListMethod::New), &[], list);
    w.intrinsic("L.append", l(ListMethod::Append), &[list, element], list);
    w.intrinsic("L.concat", l(ListMethod::Concat), &[list, list], list);
    w.intrinsic("L.empty?", l(ListMethod::EmptyQ), &[list], IRType::Bool);
    w.intrinsic("L.from_list", l(ListMethod::FromList), &[list], list);
    w.intrinsic("L.get", l(ListMethod::Get), &[list, IRType::Int64], option);
    w.intrinsic("L.length", l(ListMethod::Length), &[list], IRType::Int64);
    w.intrinsic("L.pop", l(ListMethod::Pop), &[list], pair);
    w.intrinsic("L.replace_at", l(ListMethod::ReplaceAt), &[list, IRType::Int64, element], list);
    w.intrinsic("L.slice", l(ListMethod::Slice), &[list, IRType::Int64, IRType::Int64], list);
    w
}

fn items(vm: &Vm, list: &[u8], size: u64) -> Vec<u64> {
    let (buf, len) = (num(&list[0..8]), num(&list[8..16]));
    (0..len).map(|i| num(&vm.read(buf + i * size, size as usize))).collect()
}

fn build(vm: &mut Vm, values: &[u64]) -> Bytes {
    let mut list = vm.run("L.new", &[]);
    for x in values {
        list = vm.run("L.append", &[list, word(*x)]);
    }
    list
}

#[test]
fn lists_hold_what_was_appended() {
    let mut vm = list_world(IRType::Int64).boot();
    let empty = vm.run("L.new", &[]);
    assert_eq!(num(&empty[8..16]), 0);
    assert_eq!(num(&empty[16..24]), 8);
    assert_eq!(vm.run("L.empty?", &[empty]), [1]);
    let values: Vec<u64> = (0..20).map(|i| i * i + 1).collect();
    let list = build(&mut vm, &values);
    assert_eq!(items(&vm, &list, 8), values);
    assert_eq!(num(&vm.run("L.length", &[list.clone()])), 20);
    assert_eq!(vm.run("L.empty?", &[list.clone()]), [0]);
    for i in 0..20 {
        assert_eq!(first(&vm.run("L.get", &[list.clone(), word(i)]), 8), Some(word(values[i as usize])));
    }
    for i in [20, 21, u64::MAX] {
        assert_eq!(first(&vm.run("L.get", &[list.clone(), word(i)]), 8), None);
    }
}

#[test]
fn lists_are_not_changed_in_place() {
    let mut vm = list_world(IRType::Int64).boot();
    let list = build(&mut vm, &[1, 2, 3]);
    let longer = vm.run("L.append", &[list.clone(), word(4)]);
    let changed = vm.run("L.replace_at", &[list.clone(), word(1), word(9)]);
    let same = vm.run("L.replace_at", &[list.clone(), word(3), word(9)]);
    let copy = vm.run("L.from_list", &[list.clone()]);
    assert_eq!(items(&vm, &longer, 8), [1, 2, 3, 4]);
    assert_eq!(items(&vm, &changed, 8), [1, 9, 3]);
    assert_eq!(items(&vm, &same, 8), [1, 2, 3]);
    assert_eq!(items(&vm, &copy, 8), [1, 2, 3]);
    assert_eq!(items(&vm, &list, 8), [1, 2, 3]);
    for other in [&longer, &changed, &same, &copy] {
        assert_ne!(other[0..8], list[0..8]);
    }
}

#[test]
fn slices_are_clamped() {
    let mut vm = list_world(IRType::Int64).boot();
    let values = [10u64, 11, 12, 13, 14];
    let list = build(&mut vm, &values);
    for start in [0u64, 1, 4, 5, 6, u64::MAX] {
        for count in [0u64, 1, 2, 5, 9, u64::MAX] {
            let part = vm.run("L.slice", &[list.clone(), word(start), word(count)]);
            let from = start.min(5) as usize;
            let n = count.min(5 - from as u64) as usize;
            assert_eq!(items(&vm, &part, 8), values[from..from + n]);
        }
    }
}

#[test]
fn lists_are_joined_and_popped() {
    let mut vm = list_world(IRType::Int64).boot();
    let (a, b) = (build(&mut vm, &[1, 2]), build(&mut vm, &[3, 4, 5]));
    let none = vm.run("L.new", &[]);
    let both = vm.run("L.concat", &[a.clone(), b.clone()]);
    assert_eq!(items(&vm, &both, 8), [1, 2, 3, 4, 5]);
    let left = vm.run("L.concat", &[a.clone(), none.clone()]);
    assert_eq!(items(&vm, &left, 8), [1, 2]);
    let right = vm.run("L.concat", &[none.clone(), b]);
    assert_eq!(items(&vm, &right, 8), [3, 4, 5]);
    let at = vm.offset(LType::Tuple(0), 1) as usize;
    let popped = vm.run("L.pop", &[a.clone()]);
    assert_eq!(first(&popped, 8), Some(word(2)));
    assert_eq!(items(&vm, &popped[at..], 8), [1]);
    assert_eq!(items(&vm, &a, 8), [1, 2]);
    let popped = vm.run("L.pop", &[none]);
    assert_eq!(first(&popped, 8), None);
    assert_eq!(num(&popped[at + 8..at + 16]), 0);
}

#[test]
fn narrow_elements_lie_side_by_side() {
    let mut vm = list_world(IRType::UInt8).boot();
    let mut list = vm.run("L.new", &[]);
    for x in 0..10u8 {
        list = vm.run("L.append", &[list, vec![x]]);
    }
    let buf = num(&list[0..8]);
    assert_eq!(vm.read(buf, 10), (0..10).collect::<Vec<u8>>());
}

#[test]
fn lists_own_their_strings() {
    let mut vm = list_world(IRType::String).boot();
    let s = vm.payload(b"shared");
    let none = vm.run("L.new", &[]);
    let one = vm.run("L.append", &[none, word(s)]);
    assert_eq!(vm.count(s), 2);
    let two = vm.run("L.append", &[one.clone(), word(s)]);
    assert_eq!(vm.count(s), 4);
    assert_eq!(items(&vm, &two, 8), [s, s]);
    let t = vm.payload(b"other");
    vm.run("L.replace_at", &[one.clone(), word(0), word(t)]);
    assert_eq!(vm.count(s), 4);
    assert_eq!(vm.count(t), 2);
    assert_eq!(first(&vm.run("L.get", &[one, word(0)]), 8), Some(word(s)));
    assert_eq!(vm.count(s), 5);
}

#[test]
fn composite_elements_go_through_their_glue() {
    let mut w = list_world(IRType::Int64);
    let inner = IRType::List(0);
    let node = w.node(inner);
    let outer = IRType::List(node);
    let clone = w.function("G.clone", FunctionKind::CloneGlue, &[inner], inner);
    let drop = w.function("G.drop", FunctionKind::DropGlue, &[inner], IRType::Unit);
    w.c.glue.push(Glue { kind: GlueKind::Clone, ty: inner, function: clone });
    w.c.glue.push(Glue { kind: GlueKind::Drop, ty: inner, function: drop });
    w.intrinsic("O.new", IRIntrinsicId::List(ListMethod::New), &[], outer);
    w.intrinsic("O.append", IRIntrinsicId::List(ListMethod::Append), &[outer, inner], outer);
    w.function("O.drop", FunctionKind::DropGlue, &[outer], IRType::Unit);
    let mut vm = w.boot();
    let list = build(&mut vm, &[5, 6]);
    let none = vm.run("O.new", &[]);
    let one = vm.run("O.append", &[none, list.clone()]);
    let held = vm.read(num(&one[0..8]), 24);
    assert_ne!(held[0..8], list[0..8]);
    assert_eq!(items(&vm, &held, 8), [5, 6]);
    let before = vm.live.len();
    vm.run("O.drop", &[one]);
    assert_eq!(vm.live.len(), before - 2);
}

fn table_world(key: IRType, value: IRType) -> World {
    let mut w = world();
    w.key_helpers();
    let (k, n) = (w.node(key), w.node(value));
    let (map, set, list) = (IRType::MapOf(k, n), IRType::SetOf(k), IRType::List(k));
    let option = w.enumeration("Global.Option_$V$", &[("Some", &[value]), ("None", &[])]);
    w.c.tuples.push(vec![key, value]);
    let m = IRIntrinsicId::MapOf;
    w.intrinsic("M.new", m(MapMethod::New), &[], map);
    w.intrinsic("M.put", m(MapMethod::Put), &[map, key, value], map);
    w.intrinsic("M.get", m(MapMethod::Get), &[map, key], option);
    w.intrinsic("M.has?", m(MapMethod::HasQ), &[map, key], IRType::Bool);
    w.intrinsic("M.remove", m(MapMethod::Remove), &[map, key], map);
    w.intrinsic("M.length", m(MapMethod::Length), &[map], IRType::Int64);
    w.intrinsic("M.empty?", m(MapMethod::EmptyQ), &[map], IRType::Bool);
    w.intrinsic("M.from_map", m(MapMethod::FromMap), &[map], map);
    let s = IRIntrinsicId::SetOf;
    w.intrinsic("S.new", s(SetMethod::New), &[], set);
    w.intrinsic("S.insert", s(SetMethod::Insert), &[set, key], set);
    w.intrinsic("S.has?", s(SetMethod::HasQ), &[set, key], IRType::Bool);
    w.intrinsic("S.remove", s(SetMethod::Remove), &[set, key], set);
    w.intrinsic("S.length", s(SetMethod::Length), &[set], IRType::Int64);
    w.intrinsic("S.from_list", s(SetMethod::FromList), &[list], set);
    w.intrinsic("L.new", IRIntrinsicId::List(ListMethod::New), &[], list);
    w.intrinsic("L.append", IRIntrinsicId::List(ListMethod::Append), &[list, key], list);
    w
}

#[test]
fn maps_give_back_what_was_put() {
    let mut vm = table_world(IRType::Int64, IRType::Int64).boot();
    let mut map = vm.run("M.new", &[]);
    let mut want: BTreeMap<u64, u64> = BTreeMap::new();
    assert_eq!(num(&map[24..32]), 8);
    assert_eq!(vm.run("M.empty?", &[map.clone()]), [1]);
    let mut x = 1u64;
    for i in 0..200u64 {
        x = x.wrapping_mul(6364136223846793005).wrapping_add(1442695040888963407);
        let key = x >> 58;
        let before = map.clone();
        let kept = vm.read(num(&before[0..8]), 16 * num(&before[24..32]) as usize);
        map = vm.run("M.put", &[map, word(key), word(i)]);
        assert_eq!(vm.read(num(&before[0..8]), kept.len()), kept);
        want.insert(key, i);
        assert_eq!(num(&vm.run("M.length", &[map.clone()])), want.len() as u64);
        let capacity = num(&map[24..32]);
        assert!(capacity.is_power_of_two());
        assert!(4 * want.len() as u64 <= 3 * capacity);
    }
    for key in 0..70 {
        let found = first(&vm.run("M.get", &[map.clone(), word(key)]), 8).map(|b| num(&b));
        assert_eq!(found, want.get(&key).copied());
        assert_eq!(vm.run("M.has?", &[map.clone(), word(key)]), [u8::from(want.contains_key(&key))]);
    }
    let copy = vm.run("M.from_map", &[map.clone()]);
    assert_ne!(copy[0..8], map[0..8]);
    assert_eq!(num(&vm.run("M.length", &[copy.clone()])), want.len() as u64);
    let removed = vm.run("M.remove", &[map.clone(), word(want.keys().next().copied().unwrap())]);
    assert_eq!(num(&vm.run("M.length", &[removed])), want.len() as u64 - 1);
    assert_eq!(num(&vm.run("M.length", &[map])), want.len() as u64);
}

#[test]
fn a_table_grows_past_three_quarters() {
    let mut vm = table_world(IRType::Int64, IRType::Int64).boot();
    let mut set = vm.run("S.new", &[]);
    let mut capacities = Vec::new();
    for i in 0..13u64 {
        set = vm.run("S.insert", &[set, word(i)]);
        capacities.push(num(&set[24..32]));
    }
    assert_eq!(capacities, [8, 8, 8, 8, 8, 8, 16, 16, 16, 16, 16, 16, 32]);
}

#[test]
fn removed_keys_are_gone_and_others_stay() {
    let mut vm = table_world(IRType::Int64, IRType::Int64).boot();
    let mut set = vm.run("S.new", &[]);
    for i in 0..40u64 {
        set = vm.run("S.insert", &[set, word(i * 3)]);
    }
    for i in (0..40u64).step_by(2) {
        set = vm.run("S.remove", &[set, word(i * 3)]);
    }
    set = vm.run("S.remove", &[set, word(1)]);
    assert_eq!(num(&vm.run("S.length", &[set.clone()])), 20);
    for i in 0..40u64 {
        assert_eq!(vm.run("S.has?", &[set.clone(), word(i * 3)]), [(i % 2) as u8]);
    }
    let again = vm.run("S.insert", &[set.clone(), word(3)]);
    assert_eq!(vm.run("S.has?", &[again, word(3)]), [1]);
}

#[test]
fn a_key_behind_a_removed_bucket_is_overwritten() {
    let mut vm = table_world(IRType::Int64, IRType::Int64).boot();
    let a = 1u64;
    let b = (2u64..).find(|x| splitmix(*x) % 8 == splitmix(a) % 8).unwrap();
    let mut map = vm.run("M.new", &[]);
    map = vm.run("M.put", &[map, word(a), word(10)]);
    map = vm.run("M.put", &[map, word(b), word(20)]);
    map = vm.run("M.remove", &[map, word(a)]);
    map = vm.run("M.put", &[map, word(b), word(30)]);
    assert_eq!(num(&vm.run("M.length", &[map.clone()])), 1);
    let found = first(&vm.run("M.get", &[map.clone(), word(b)]), 8).map(|x| num(&x));
    assert_eq!(found, Some(30));
    let gone = vm.run("M.remove", &[map.clone(), word(b)]);
    assert_eq!(vm.run("M.has?", &[gone, word(b)]), [0]);
    let back = vm.run("M.put", &[map, word(a), word(40)]);
    assert_eq!(num(&vm.run("M.length", &[back.clone()])), 2);
    assert_eq!(num(&vm.read(num(&back[0..8]) + 16 * (splitmix(a) % 8), 8)), a);
}

#[test]
fn a_table_without_a_fresh_bucket_still_takes_keys() {
    let mut vm = table_world(IRType::Int64, IRType::Int64).boot();
    let mut set = vm.run("S.new", &[]);
    let mut seen: Vec<u64> = Vec::new();
    for x in 0u64.. {
        if seen.len() == 8 {
            break;
        }
        if !seen.contains(&(splitmix(x) % 8)) {
            seen.push(splitmix(x) % 8);
            set = vm.run("S.insert", &[set, word(x)]);
            set = vm.run("S.remove", &[set, word(x)]);
        }
    }
    assert!(vm.read(num(&set[8..16]), 8).iter().all(|state| *state == 2));
    set = vm.run("S.insert", &[set, word(77)]);
    assert_eq!(num(&vm.run("S.length", &[set.clone()])), 1);
    assert_eq!(vm.run("S.has?", &[set, word(77)]), [1]);
}

#[test]
fn sets_own_the_strings_of_a_list() {
    let mut vm = table_world(IRType::String, IRType::String).boot();
    let (p, q) = (vm.payload(b"one"), vm.payload(b"two"));
    let mut list = vm.run("L.new", &[]);
    for x in [p, q, p] {
        list = vm.run("L.append", &[list, word(x)]);
    }
    let before = (vm.count(p), vm.count(q));
    let set = vm.run("S.from_list", &[list]);
    assert_eq!(num(&vm.run("S.length", &[set])), 2);
    assert_eq!((vm.count(p), vm.count(q)), (before.0 + 1, before.1 + 1));
}

#[test]
fn sets_are_made_of_lists() {
    let mut vm = table_world(IRType::Int64, IRType::Int64).boot();
    let list = build(&mut vm, &[4, 9, 4, 16, 9, 25, 36, 49, 64, 81, 100]);
    let set = vm.run("S.from_list", &[list]);
    assert_eq!(num(&vm.run("S.length", &[set.clone()])), 9);
    for x in [4u64, 9, 16, 25, 36, 49, 64, 81, 100] {
        assert_eq!(vm.run("S.has?", &[set.clone(), word(x)]), [1]);
    }
    assert_eq!(vm.run("S.has?", &[set, word(5)]), [0]);
}

#[test]
fn string_keys_are_compared_by_content_and_owned() {
    let mut vm = table_world(IRType::String, IRType::String).boot();
    let mut map = vm.run("M.new", &[]);
    let keys: Vec<String> = (0..12).map(|i| format!("key {i}")).collect();
    for k in &keys {
        let (p, q) = (vm.payload(k.as_bytes()), vm.payload(format!("value of {k}").as_bytes()));
        map = vm.run("M.put", &[map, word(p), word(q)]);
        assert_eq!(vm.count(p), 2);
        assert_eq!(vm.count(q), 2);
    }
    for k in &keys {
        let p = vm.payload(k.as_bytes());
        let found = first(&vm.run("M.get", &[map.clone(), word(p)]), 8).unwrap();
        assert_eq!(vm.payload_bytes(num(&found)), format!("value of {k}").as_bytes());
    }
    let p = vm.payload(b"nobody");
    assert_eq!(first(&vm.run("M.get", &[map, word(p)]), 8), None);
}

#[test]
fn conversions_check_their_bounds() {
    let mut w = world();
    let error = w.enumeration("Global.NumericConversionError", &[("OutOfRange", &[])]);
    let cases = [
        (IntNarrowTarget::Int8, IRType::Int8, i8::MIN as i64, i8::MAX as i64),
        (IntNarrowTarget::Int16, IRType::Int16, i16::MIN as i64, i16::MAX as i64),
        (IntNarrowTarget::Int32, IRType::Int32, i32::MIN as i64, i32::MAX as i64),
        (IntNarrowTarget::UInt8, IRType::UInt8, 0, u8::MAX as i64),
        (IntNarrowTarget::UInt16, IRType::UInt16, 0, u16::MAX as i64),
        (IntNarrowTarget::UInt32, IRType::UInt32, 0, u32::MAX as i64),
        (IntNarrowTarget::UInt64, IRType::UInt64, 0, i64::MAX),
    ];
    for (i, (target, ty, _, _)) in cases.iter().enumerate() {
        let result = w.enumeration(&format!("Global.Result_$N{i}$"), &[("Ok", &[*ty]), ("Err", &[error])]);
        let id = IRIntrinsicId::NumericConvert(NumericConvert::IntNarrow(*target));
        w.intrinsic(&format!("N{i}"), id, &[IRType::Int64], result);
    }
    let wide = w.enumeration("Global.Result_$W$", &[("Ok", &[IRType::Int64]), ("Err", &[error])]);
    let id = IRIntrinsicId::NumericConvert(NumericConvert::UInt64ToInt);
    w.intrinsic("W", id, &[IRType::UInt64], wide);
    let id = IRIntrinsicId::NumericConvert(NumericConvert::FloatToFloat32);
    w.intrinsic("F", id, &[IRType::Float64], IRType::Float32);
    let mut vm = w.boot();
    for (i, (_, ty, lo, hi)) in cases.iter().enumerate() {
        let n = vm.size(lower(*ty));
        let mut tries = vec![*lo, lo + 1, 0, 1, *hi, i64::MIN, i64::MAX];
        tries.extend(lo.checked_sub(1));
        tries.extend(hi.checked_add(1));
        for x in tries {
            let got = first(&vm.run(&format!("N{i}"), &[word(x as u64)]), n);
            let want = if *lo <= x && x <= *hi { Some(word(x as u64)[..n].to_vec()) } else { None };
            assert_eq!(got, want, "{x} as {ty:?}");
        }
    }
    assert_eq!(first(&vm.run("W", &[word(5)]), 8), Some(word(5)));
    assert_eq!(first(&vm.run("W", &[word(1 << 63)]), 8), None);
    let half = vm.run("F", &[0.1f64.to_le_bytes().to_vec()]);
    assert_eq!(half, 0.1f32.to_le_bytes().to_vec());
}

#[test]
fn bits_are_shifted_by_the_type() {
    let mut w = world();
    let ops = [BitOp::Band, BitOp::Bor, BitOp::Bxor, BitOp::Bsl, BitOp::Bsr];
    for (i, op) in ops.iter().enumerate() {
        let second = if i < 3 { IRType::UInt8 } else { IRType::Int64 };
        w.intrinsic(&format!("u{i}"), IRIntrinsicId::Bitwise(*op, false), &[IRType::UInt8, second], IRType::UInt8);
    }
    w.intrinsic("not", IRIntrinsicId::Bitwise(BitOp::Bnot, false), &[IRType::UInt8], IRType::UInt8);
    w.intrinsic("sar", IRIntrinsicId::Bitwise(BitOp::Bsr, true), &[IRType::Int8, IRType::Int64], IRType::Int8);
    let mut vm = w.boot();
    assert_eq!(vm.run("u0", &[vec![0b1100], vec![0b1010]]), [0b1000]);
    assert_eq!(vm.run("u1", &[vec![0b1100], vec![0b1010]]), [0b1110]);
    assert_eq!(vm.run("u2", &[vec![0b1100], vec![0b1010]]), [0b0110]);
    assert_eq!(vm.run("u3", &[vec![0x81], word(1)]), [0x02]);
    assert_eq!(vm.run("u4", &[vec![0x80], word(3)]), [0x10]);
    assert_eq!(vm.run("not", &[vec![0x0f]]), [0xf0]);
    assert_eq!(vm.run("sar", &[vec![0x80], word(3)]), [0xf0]);
}

fn op_world(ty: IRType) -> World {
    let mut w = world();
    let ops = [
        ("add", IRBinOp::Add),
        ("sub", IRBinOp::Sub),
        ("mul", IRBinOp::Mul),
        ("div", IRBinOp::Div),
        ("mod", IRBinOp::Mod),
        ("lt", IRBinOp::Lt),
    ];
    for (name, op) in ops {
        let ret = if name == "lt" { IRType::Bool } else { ty };
        let inst = IRInstruction::BinaryOp { dest: v(2), lhs: v(0), op, operand_ty: ty, rhs: v(1), texts: texts() };
        w.regular(name, &[ty, ty], ret, vec![inst], Some(v(2)));
    }
    let neg = IRInstruction::UnaryOp { dest: v(2), op: IRUnaryOp::Neg, operand: v(0), operand_ty: ty, texts: texts() };
    w.regular("neg", &[ty], ty, vec![neg], Some(v(2)));
    w
}

#[test]
fn signed_arithmetic_panics_instead_of_wrapping() {
    let mut vm = op_world(IRType::Int8).boot();
    let b = |x: i8| vec![x as u8];
    for x in [-128i8, -127, -1, 0, 1, 5, 127] {
        for y in [-128i8, -2, -1, 0, 1, 3, 127] {
            for (name, want) in [
                ("add", x.checked_add(y)),
                ("sub", x.checked_sub(y)),
                ("mul", x.checked_mul(y)),
                ("div", x.checked_div(y)),
                ("mod", x.checked_rem(y)),
            ] {
                match want {
                    Some(r) => assert_eq!(vm.run(name, &[b(x), b(y)]), b(r), "{x} {name} {y}"),
                    None => {
                        let zero = y == 0 && (name == "div" || name == "mod");
                        let text = if zero { "division by zero" } else { "integer overflow" };
                        assert_eq!(vm.fails(name, &[b(x), b(y)]), text);
                    }
                }
            }
            assert_eq!(vm.run("lt", &[b(x), b(y)]), [u8::from(x < y)]);
        }
    }
    assert_eq!(vm.run("neg", &[b(-127)]), b(127));
    assert_eq!(vm.fails("neg", &[b(-128)]), "integer overflow");
}

#[test]
fn unsigned_arithmetic_panics_instead_of_wrapping() {
    let mut vm = op_world(IRType::UInt8).boot();
    for x in [0u8, 1, 7, 128, 255] {
        for y in [0u8, 1, 2, 200, 255] {
            for (name, want) in [
                ("add", x.checked_add(y)),
                ("sub", x.checked_sub(y)),
                ("mul", x.checked_mul(y)),
                ("div", x.checked_div(y)),
                ("mod", x.checked_rem(y)),
            ] {
                match want {
                    Some(r) => assert_eq!(vm.run(name, &[vec![x], vec![y]]), [r]),
                    None => {
                        vm.fails(name, &[vec![x], vec![y]]);
                    }
                }
            }
            assert_eq!(vm.run("lt", &[vec![x], vec![y]]), [u8::from(x < y)]);
        }
    }
}

#[test]
fn float_arithmetic_panics_on_what_is_not_finite() {
    let mut vm = op_world(IRType::Float64).boot();
    let b = |x: f64| x.to_le_bytes().to_vec();
    assert_eq!(vm.run("add", &[b(1.5), b(2.25)]), b(3.75));
    assert_eq!(vm.run("neg", &[b(1.5)]), b(-1.5));
    assert_eq!(vm.fails("div", &[b(1.0), b(0.0)]), "not finite");
    assert_eq!(vm.fails("div", &[b(0.0), b(0.0)]), "not finite");
    assert_eq!(vm.fails("mul", &[b(f64::MAX), b(2.0)]), "not finite");
    assert_eq!(vm.run("lt", &[b(f64::NAN), b(1.0)]), [0]);
}

#[test]
fn widening_keeps_the_number() {
    let mut w = world();
    for (name, from, to) in [
        ("s", IRType::Int8, IRType::Int64),
        ("u", IRType::UInt8, IRType::UInt64),
        ("f", IRType::Float32, IRType::Float64),
    ] {
        let inst = IRInstruction::NumericWiden { dest: v(1), from, to, value: v(0) };
        w.regular(name, &[from], to, vec![inst], Some(v(1)));
    }
    let mut vm = w.boot();
    assert_eq!(vm.run("s", &[vec![0x80]]), word(-128i64 as u64));
    assert_eq!(vm.run("u", &[vec![0x80]]), word(128));
    assert_eq!(vm.run("f", &[0.5f32.to_le_bytes().to_vec()]), 0.5f64.to_le_bytes().to_vec());
}

#[test]
fn concatenation_joins_bytes() {
    let mut w = world();
    for (name, kind, ty) in [
        ("s", ConcatKind::String, IRType::String),
        ("b", ConcatKind::Binary, IRType::Binary),
    ] {
        let inst = IRInstruction::Concat { dest: v(2), kind, lhs: v(0), rhs: v(1) };
        w.regular(name, &[ty, ty], ty, vec![inst], Some(v(2)));
    }
    let mut vm = w.boot();
    for (x, y) in [("", ""), ("ab", ""), ("", "cde"), ("ab", "cde")] {
        for name in ["s", "b"] {
            let (p, q) = (vm.payload(x.as_bytes()), vm.payload(y.as_bytes()));
            let r = num(&vm.run(name, &[word(p), word(q)]));
            assert_eq!(vm.payload_bytes(r), format!("{x}{y}").as_bytes());
            assert_eq!(vm.count(r), 1);
            assert_eq!(vm.payload_bytes(p), x.as_bytes());
            if name == "s" {
                assert_eq!(vm.read(r + (x.len() + y.len()) as u64, 1), [0]);
            }
            let extra = if name == "s" { 17 } else { 16 };
            assert_eq!(vm.live[&(r - 16)], (x.len() + y.len() + extra) as u64);
        }
    }
}

fn match_world(segments: Vec<LoweredBinaryPattern>, fixed_bits: u64, has_greedy_tail: bool, ty: IRType) -> World {
    let mut w = world();
    let params = [IRType::Binary];
    for (name, result) in [("ok", None), ("bound", Some(v(8)))] {
        let mut instructions = vec![IRInstruction::LocalDecl { local: IRLocalId(5), ty }];
        instructions.push(IRInstruction::BinaryMatch {
            dest: v(7),
            layout: LoweredBinaryMatchLayout { fixed_bits, has_greedy_tail },
            segments: segments
                .iter()
                .map(|s| match s {
                    LoweredBinaryPattern::LiteralInt { bit_offset, endian, value, width } => {
                        LoweredBinaryPattern::LiteralInt {
                            bit_offset: *bit_offset,
                            endian: *endian,
                            value: *value,
                            width: *width,
                        }
                    }
                    LoweredBinaryPattern::LiteralBytes { bit_offset, bytes } => {
                        LoweredBinaryPattern::LiteralBytes { bit_offset: *bit_offset, bytes: bytes.clone() }
                    }
                    LoweredBinaryPattern::BindInt { bit_offset, endian, local, sign, ty, width } => {
                        LoweredBinaryPattern::BindInt {
                            bit_offset: *bit_offset,
                            endian: *endian,
                            local: *local,
                            sign: *sign,
                            ty: *ty,
                            width: *width,
                        }
                    }
                    LoweredBinaryPattern::Discard => LoweredBinaryPattern::Discard,
                    LoweredBinaryPattern::GreedyTail { bit_offset, local } => {
                        LoweredBinaryPattern::GreedyTail { bit_offset: *bit_offset, local: *local }
                    }
                })
                .collect(),
            subject: v(0),
        });
        instructions.push(IRInstruction::LocalRead { dest: v(8), local: IRLocalId(5), ty });
        let ret = if result.is_none() { IRType::Bool } else { ty };
        w.regular(name, &params, ret, instructions, result.or(Some(v(7))));
    }
    w
}

fn bind(endian: BinaryEndian, sign: BinarySign, ty: IRType, width: u64) -> LoweredBinaryPattern {
    LoweredBinaryPattern::BindInt { bit_offset: 8, endian, local: IRLocalId(5), sign, ty, width }
}

#[test]
fn segments_are_bound_by_endianness_and_sign() {
    let bytes = [7u8, 0xff, 0x02, 0x03, 0x84];
    let cases = [
        (BinaryEndian::Big, BinarySign::Unsigned, 8, 0xff),
        (BinaryEndian::Big, BinarySign::Signed, 8, -1i64 as u64),
        (BinaryEndian::Big, BinarySign::Unsigned, 16, 0xff02),
        (BinaryEndian::Little, BinarySign::Unsigned, 16, 0x02ff),
        (BinaryEndian::Big, BinarySign::Signed, 16, 0xff02u16 as i16 as i64 as u64),
        (BinaryEndian::Little, BinarySign::Signed, 16, 0x02ff),
        (BinaryEndian::Big, BinarySign::Unsigned, 32, 0xff020384),
        (BinaryEndian::Little, BinarySign::Signed, 32, 0x840302ffu32 as i32 as i64 as u64),
        (BinaryEndian::Little, BinarySign::Unsigned, 24, 0x0302ff),
    ];
    for (endian, sign, width, want) in cases {
        let w = match_world(vec![bind(endian, sign, IRType::Int64, width)], 8 + width, false, IRType::Int64);
        let mut vm = w.boot();
        let p = vm.payload(&bytes[..1 + width as usize / 8]);
        assert_eq!(vm.run("ok", &[word(p)]), [1]);
        assert_eq!(num(&vm.run("bound", &[word(p)])), want);
    }
}

#[test]
fn literals_and_lengths_decide_a_match() {
    let literal = |value: u64| {
        vec![
            LoweredBinaryPattern::LiteralInt { bit_offset: 0, endian: BinaryEndian::Big, value, width: 16 },
            LoweredBinaryPattern::LiteralBytes { bit_offset: 16, bytes: vec![0xFF, 0x6B] },
        ]
    };
    let mut vm = match_world(literal(0x0102), 32, false, IRType::Int64).boot();
    for (bytes, want) in [
        (vec![1u8, 2, 0xFF, b'k'], 1u8),
        (vec![1, 3, 0xFF, b'k'], 0),
        (vec![1, 2, 0xFF, b'x'], 0),
        (vec![1, 2, 0xFF, b'k', 0], 0),
    ] {
        let p = vm.payload(&bytes);
        assert_eq!(vm.run("ok", &[word(p)]), [want], "{bytes:?}");
    }
}

#[test]
fn a_greedy_tail_takes_the_rest() {
    let tail = LoweredBinaryPattern::GreedyTail { bit_offset: 8, local: Some(IRLocalId(5)) };
    let mut vm = match_world(vec![tail], 8, true, IRType::Binary).boot();
    let p = vm.payload(&[1, 2, 3, 4]);
    assert_eq!(vm.run("ok", &[word(p)]), [1]);
    let rest = num(&vm.run("bound", &[word(p)]));
    assert_eq!(vm.payload_bytes(rest), [2, 3, 4]);
    let p = vm.payload(&[1]);
    let rest = num(&vm.run("bound", &[word(p)]));
    assert_eq!(vm.payload_bytes(rest), Vec::<u8>::new());
    let p = vm.payload(&[]);
    assert_eq!(vm.run("ok", &[word(p)]), [0]);
    assert_eq!(vm.run("bound", &[word(p)]), word(0));
}

#[test]
fn a_tail_call_runs_as_a_loop() {
    let mut w = world();
    let at = w.function("sum", FunctionKind::Regular, &[IRType::Int64, IRType::Int64], IRType::Int64);
    let read = |dest: u32, local: u32| IRInstruction::LocalRead {
        dest: v(dest),
        local: IRLocalId(local),
        ty: IRType::Int64,
    };
    let op = |dest: u32, op, lhs: u32, rhs: u32| IRInstruction::BinaryOp {
        dest: v(dest),
        lhs: v(lhs),
        op,
        operand_ty: IRType::Int64,
        rhs: v(rhs),
        texts: texts(),
    };
    let to = |block: u32, args: Vec<ValueId>| BranchTarget { args, block: IRBlockId(block) };
    w.functions[at].blocks = vec![
        IRBasicBlock {
            id: IRBlockId(0),
            label: "bb".to_string(),
            instructions: vec![
                IRInstruction::LocalDecl { local: IRLocalId(0), ty: IRType::Int64 },
                IRInstruction::LocalWrite { local: IRLocalId(0), ty: IRType::Int64, value: v(0) },
                IRInstruction::LocalDecl { local: IRLocalId(1), ty: IRType::Int64 },
                IRInstruction::LocalWrite { local: IRLocalId(1), ty: IRType::Int64, value: v(1) },
                read(10, 0),
                read(11, 1),
                op(12, IRBinOp::Sub, 10, 10),
                op(13, IRBinOp::Eq, 10, 12),
            ],
            params: Vec::new(),
            terminator: IRTerminator::CondBranch {
                cond: v(13),
                then_target: to(1, vec![v(11)]),
                else_target: to(2, Vec::new()),
            },
        },
        IRBasicBlock {
            id: IRBlockId(1),
            label: "bb".to_string(),
            instructions: Vec::new(),
            params: vec![BlockParam { dest: v(20), ty: IRType::Int64 }],
            terminator: IRTerminator::Return { value: Some(v(20)) },
        },
        IRBasicBlock {
            id: IRBlockId(2),
            label: "bb".to_string(),
            instructions: vec![
                op(30, IRBinOp::Div, 10, 10),
                op(31, IRBinOp::Sub, 10, 30),
                op(32, IRBinOp::Add, 11, 10),
            ],
            params: Vec::new(),
            terminator: IRTerminator::TailCall { args: vec![v(31), v(32)] },
        },
    ];
    let mut vm = w.boot();
    assert_eq!(num(&vm.run("sum", &[word(0), word(5)])), 5);
    assert_eq!(num(&vm.run("sum", &[word(100), word(0)])), 5050);
}

#[test]
fn cursors_visit_every_entry_once() {
    let mut w = table_world(IRType::Int64, IRType::Int64);
    w.c.tuples.push(vec![IRType::Tuple(0), IRType::Int64]);
    w.c.tuples.push(vec![IRType::Int64, IRType::Int64]);
    let (map, set) = (IRType::MapOf(0, 1), IRType::SetOf(0));
    let map_next = w.enumeration("Global.Option_$P$", &[("Some", &[IRType::Tuple(1)]), ("None", &[])]);
    let set_next = w.enumeration("Global.Option_$Q$", &[("Some", &[IRType::Tuple(2)]), ("None", &[])]);
    w.intrinsic("M.next", IRIntrinsicId::MapOf(MapMethod::Next), &[map, IRType::Int64], map_next);
    w.intrinsic("S.next", IRIntrinsicId::SetOf(SetMethod::Next), &[set, IRType::Int64], set_next);
    let mut vm = w.boot();
    let (mut map, mut set) = (vm.run("M.new", &[]), vm.run("S.new", &[]));
    for i in 0..25u64 {
        map = vm.run("M.put", &[map, word(i), word(i * 10)]);
        set = vm.run("S.insert", &[set, word(i)]);
    }
    let mut entries = BTreeMap::new();
    let mut cursor = 0u64;
    while let Some(step) = first(&vm.run("M.next", &[map.clone(), word(cursor)]), 24) {
        assert!(num(&step[16..24]) > cursor || cursor == 0);
        cursor = num(&step[16..24]);
        assert!(entries.insert(num(&step[0..8]), num(&step[8..16])).is_none());
    }
    assert_eq!(entries, (0..25).map(|i| (i, i * 10)).collect());
    let (mut items, mut cursor) = (Vec::new(), 0u64);
    while let Some(step) = first(&vm.run("S.next", &[set.clone(), word(cursor)]), 16) {
        items.push(num(&step[0..8]));
        cursor = num(&step[8..16]);
    }
    items.sort_unstable();
    assert_eq!(items, (0..25).collect::<Vec<u64>>());
    assert_eq!(first(&vm.run("S.next", &[set.clone(), word(u64::MAX)]), 16), None);
    assert_eq!(first(&vm.run("S.next", &[set, word(1 << 40)]), 16), None);
}

#[test]
fn collection_glue_counts_owners() {
    let mut w = list_world(IRType::String);
    let list = IRType::List(0);
    w.function("G.clone", FunctionKind::CloneGlue, &[list], list);
    w.function("G.copy", FunctionKind::DeepCopyGlue, &[list], list);
    w.function("G.drop", FunctionKind::DropGlue, &[list], IRType::Unit);
    let mut vm = w.boot();
    let s = vm.payload(b"text");
    let none = vm.run("L.new", &[]);
    let list = vm.run("L.append", &[none, word(s)]);
    assert_eq!(vm.count(s), 2);
    let clone = vm.run("G.clone", &[list.clone()]);
    assert_eq!(items(&vm, &clone, 8), [s]);
    assert_eq!(vm.count(s), 3);
    let copy = vm.run("G.copy", &[list]);
    let own = items(&vm, &copy, 8)[0];
    assert_ne!(own, s);
    assert_eq!(vm.payload_bytes(own), b"text");
    assert_eq!(vm.count(s), 3);
    vm.run("G.drop", &[clone.clone()]);
    assert_eq!(vm.count(s), 2);
    assert!(!vm.live.contains_key(&num(&clone[0..8])));
}

#[test]
fn table_glue_counts_owners() {
    let mut w = table_world(IRType::String, IRType::String);
    let map = IRType::MapOf(0, 1);
    w.function("G.clone", FunctionKind::CloneGlue, &[map], map);
    w.function("G.copy", FunctionKind::DeepCopyGlue, &[map], map);
    w.function("G.drop", FunctionKind::DropGlue, &[map], IRType::Unit);
    let mut vm = w.boot();
    let (k, x) = (vm.payload(b"key"), vm.payload(b"value"));
    let none = vm.run("M.new", &[]);
    let map = vm.run("M.put", &[none, word(k), word(x)]);
    assert_eq!((vm.count(k), vm.count(x)), (2, 2));
    let clone = vm.run("G.clone", &[map.clone()]);
    assert_eq!((vm.count(k), vm.count(x)), (3, 3));
    let copy = vm.run("G.copy", &[map]);
    assert_eq!((vm.count(k), vm.count(x)), (3, 3));
    let found = first(&vm.run("M.get", &[copy, word(k)]), 8).unwrap();
    assert_ne!(num(&found), x);
    assert_eq!(vm.payload_bytes(num(&found)), b"value");
    let before = vm.live.len();
    vm.run("G.drop", &[clone]);
    assert_eq!((vm.count(k), vm.count(x)), (2, 2));
    assert_eq!(vm.live.len(), before - 2);
}

fn closure_world() -> World {
    let mut w = world();
    w.c.signatures.push(IRSignature { params: vec![IRType::Int64], return_type: IRType::Int64 });
    let closure = IRType::Function(0);
    w.c.signatures.push(IRSignature { params: vec![closure], return_type: IRType::Bool });
    w.c.envs.push(vec![IRType::Int64, IRType::String]);
    w.c.envs.push(Vec::new());
    let int = IRType::Int64;
    let one = |instructions, value| {
        vec![IRBasicBlock {
            id: IRBlockId(0),
            label: "bb".to_string(),
            instructions,
            params: Vec::new(),
            terminator: IRTerminator::Return { value: Some(value) },
        }]
    };
    let op = |dest: u32, op, lhs: u32, rhs: u32| IRInstruction::BinaryOp {
        dest: v(dest),
        lhs: v(lhs),
        op,
        operand_ty: IRType::Int64,
        rhs: v(rhs),
        texts: texts(),
    };
    let body = w.function("body", FunctionKind::Closure { env: 0 }, &[int], int);
    w.functions[body].blocks = one(
        vec![IRInstruction::LoadCapture { capture_index: 0, dest: v(9), ty: int }, op(10, IRBinOp::Add, 9, 0)],
        v(10),
    );
    let plain = w.function("plain", FunctionKind::Closure { env: 1 }, &[int], int);
    w.functions[plain].blocks = one(vec![op(10, IRBinOp::Mul, 0, 0)], v(10));
    let copy = w.function("body.copy", FunctionKind::CopyClosureGlue { env: 0 }, &[], IRType::Unit);
    let eq = w.function("body.eq", FunctionKind::Closure { env: 0 }, &[closure], IRType::Bool);
    w.functions[eq].blocks = one(
        vec![
            IRInstruction::LoadCapture { capture_index: 0, dest: v(9), ty: int },
            IRInstruction::LoadCaptureOf { capture_index: 0, closure: v(0), dest: v(10), ty: int },
            op(11, IRBinOp::Eq, 9, 10),
        ],
        v(11),
    );
    let (b, p) = (w.symbol("body"), w.symbol("plain"));
    w.c.closures.push(ClosureSite {
        body: b,
        copy_fn: Some(copy),
        drop_fn: None,
        eq_fn: Some(eq),
        site_id: 7,
        env: 0,
    });
    w.c.closures.push(ClosureSite { body: p, copy_fn: None, drop_fn: None, eq_fn: None, site_id: 8, env: 1 });
    let make = IRInstruction::MakeClosure { body: b, captures: vec![v(0), v(1)], dest: v(5) };
    w.regular("make", &[int, IRType::String], closure, vec![make], Some(v(5)));
    let make = IRInstruction::MakeClosure { body: p, captures: Vec::new(), dest: v(5) };
    w.regular("make.plain", &[], closure, vec![make], Some(v(5)));
    let call = IRInstruction::CallClosure { args: vec![v(1)], callee: v(0), dest: v(5), signature: 0 };
    w.regular("call", &[closure, int], int, vec![call], Some(v(5)));
    let equal = IRInstruction::ClosureEquals { dest: v(5), lhs: v(0), rhs: v(1), signature: 1 };
    w.regular("equal", &[closure, closure], IRType::Bool, vec![equal], Some(v(5)));
    let copy = IRInstruction::DeepCopy { dest: v(5), source: v(0), ty: closure };
    w.regular("copy", &[closure], closure, vec![copy], Some(v(5)));
    w
}

#[test]
fn closures_carry_their_captures() {
    let mut vm = closure_world().boot();
    let s = vm.payload(b"captured");
    let add = vm.run("make", &[word(40), word(s)]);
    assert_eq!(num(&vm.run("call", &[add.clone(), word(2)])), 42);
    let square = vm.run("make.plain", &[]);
    assert_eq!(num(&vm.run("call", &[square.clone(), word(9)])), 81);
    let env = num(&add[8..16]);
    assert_eq!(num(&vm.read(env, 8)), 1);
    assert_eq!(num(&vm.read(env + 24, 8)), 7);
    assert_eq!(num(&vm.read(env + 40, 8)), 40);
    let copy = vm.run("copy", &[add.clone()]);
    let own = num(&copy[8..16]);
    assert_ne!(own, env);
    assert_eq!(num(&vm.read(own, 8)), 1);
    assert_eq!(num(&vm.read(own + 40, 8)), 40);
    let text = num(&vm.read(own + 48, 8));
    assert_ne!(text, s);
    assert_eq!(vm.payload_bytes(text), b"captured");
    assert_eq!(num(&vm.run("call", &[copy, word(3)])), 43);
}

#[test]
fn closures_equal_by_site_and_captures() {
    let mut vm = closure_world().boot();
    let s = vm.payload(b"x");
    let (a, b) = (vm.run("make", &[word(1), word(s)]), vm.run("make", &[word(1), word(s)]));
    let c = vm.run("make", &[word(2), word(s)]);
    let p = vm.run("make.plain", &[]);
    assert_eq!(vm.run("equal", &[a.clone(), a.clone()]), [1]);
    assert_eq!(vm.run("equal", &[a.clone(), b]), [1]);
    assert_eq!(vm.run("equal", &[a.clone(), c]), [0]);
    assert_eq!(vm.run("equal", &[a, p.clone()]), [0]);
    assert_eq!(vm.run("equal", &[p.clone(), p]), [1]);
}

#[test]
fn enums_and_tuples_hold_their_parts() {
    let mut w = world();
    let int = IRType::Int64;
    let shape = w.enumeration("Shape", &[("Dot", &[]), ("Box", &[IRType::Int8, int])]);
    let IRType::Enum(symbol) = shape else { unreachable!() };
    w.c.tuples.push(vec![IRType::Bool, int]);
    let make = IRInstruction::EnumConstruct {
        dest: v(5),
        payload: EnumPayloadInit::Tuple(vec![v(0), v(1)]),
        tag: IRVariantTag(1),
        ty: symbol,
    };
    w.regular("make", &[IRType::Int8, int], shape, vec![make], Some(v(5)));
    let dot = IRInstruction::EnumConstruct { dest: v(5), payload: EnumPayloadInit::Unit, tag: IRVariantTag(0), ty: symbol };
    w.regular("dot", &[], shape, vec![dot], Some(v(5)));
    let tag = IRInstruction::EnumTagGet { dest: v(5), ty: symbol, value: v(0) };
    w.regular("tag", &[shape], IRType::UInt8, vec![tag], Some(v(5)));
    let field = IRInstruction::EnumPayloadFieldGet {
        dest: v(5),
        payload_index: 1,
        tag: IRVariantTag(1),
        ty: symbol,
        value: v(0),
    };
    w.regular("field", &[shape], int, vec![field], Some(v(5)));
    let pair = IRInstruction::TupleInit { dest: v(5), elements: vec![v(0), v(1)], tuple: 0 };
    w.regular("pair", &[IRType::Bool, int], IRType::Tuple(0), vec![pair], Some(v(5)));
    let second = IRInstruction::TupleGet { base: v(0), dest: v(5), index: 1, tuple: 0 };
    w.regular("second", &[IRType::Tuple(0)], int, vec![second], Some(v(5)));
    let mut vm = w.boot();
    let made = vm.run("make", &[vec![3], word(77)]);
    assert_eq!(vm.run("tag", &[made.clone()]), [1]);
    assert_eq!(num(&vm.run("field", &[made])), 77);
    let dot = vm.run("dot", &[]);
    assert_eq!(vm.run("tag", &[dot]), [0]);
    let pair = vm.run("pair", &[vec![1], word(9)]);
    assert_eq!(num(&vm.run("second", &[pair])), 9);
}

#[test]
fn bytes_are_read_in_bounds() {
    let mut w = world();
    let option = w.enumeration("Global.Option_$B$", &[("Some", &[IRType::Int64]), ("None", &[])]);
    let b = IRIntrinsicId::Binary;
    w.intrinsic("at", b(BinaryMethod::At), &[IRType::Binary, IRType::Int64], option);
    w.intrinsic("size", b(BinaryMethod::ByteSize), &[IRType::Binary], IRType::Int64);
    let node = w.node(IRType::UInt16);
    let cptr = IRType::CPtr(node);
    let p = IRIntrinsicId::CPtr;
    w.intrinsic("offset", p(CPtrMethod::Offset), &[cptr, IRType::Int64], cptr);
    w.intrinsic("read", p(CPtrMethod::Read), &[cptr], IRType::UInt16);
    w.intrinsic("write", p(CPtrMethod::Write), &[cptr, IRType::UInt16], IRType::Unit);
    w.intrinsic("null", p(CPtrMethod::Null), &[], cptr);
    w.intrinsic("null?", p(CPtrMethod::NullQ), &[cptr], IRType::Bool);
    w.intrinsic("to_binary", p(CPtrMethod::ToBinary), &[cptr, IRType::Int64], IRType::Binary);
    let mut vm = w.boot();
    let p = vm.payload(&[5, 250, 7]);
    assert_eq!(num(&vm.run("size", &[word(p)])), 3);
    for (i, want) in [(0u64, Some(5u64)), (1, Some(250)), (2, Some(7)), (3, None), (u64::MAX, None)] {
        assert_eq!(first(&vm.run("at", &[word(p), word(i)]), 8).map(|b| num(&b)), want);
    }
    let at = vm.reserve(64);
    let third = vm.run("offset", &[word(at), word(3)]);
    assert_eq!(num(&third), at + 6);
    vm.run("write", &[third.clone(), vec![0x34, 0x12]]);
    assert_eq!(vm.run("read", &[third]), [0x34, 0x12]);
    let null = vm.run("null", &[]);
    assert_eq!(vm.run("null?", &[null]), [1]);
    assert_eq!(vm.run("null?", &[word(at)]), [0]);
    let bytes = num(&vm.run("to_binary", &[word(at + 6), word(2)]));
    assert_eq!(vm.payload_bytes(bytes), [0x34, 0x12]);
    assert_eq!(vm.count(bytes), 1);
    vm.fails("to_binary", &[word(at), word(u64::MAX)]);
}
