//! What the emission of one function body keeps track of: the operand of
//! every SSA value, the slot of every local, the block of every IR block,
//! and the closure and tail-call frames.

use std::collections::BTreeMap;

use vstd::prelude::*;
use crate::error::{says, LlvmError};
use crate::ir::{IRBlockId, IRLocalId, IRType, ValueId};
use crate::llvm::{LType, Val};
use crate::text::{concat3, decimal, u64_text};

verus! {

/// The tail-call frame of a body: the loop header that every tail call
/// branches back to, the locals of the parameters, and every other local.
#[derive(Debug)]
pub struct TcoFrame {
    pub body_slots: Vec<(IRLocalId, IRType)>,
    pub loop_block: usize,
    pub param_slots: Vec<(IRLocalId, IRType)>,
}

/// A tail-call frame, mathematically.
#[verifier::ext_equal]
pub struct Loop {
    pub body_slots: Seq<(IRLocalId, IRType)>,
    pub loop_block: usize,
    pub param_slots: Seq<(IRLocalId, IRType)>,
}

impl View for TcoFrame {
    type V = Loop;

    open spec fn view(&self) -> Loop {
        Loop {
            body_slots: self.body_slots@,
            loop_block: self.loop_block,
            param_slots: self.param_slots@,
        }
    }
}

/// The state of one body's emission.
#[derive(Debug)]
pub struct Frame {
    pub values: BTreeMap<u32, Val>,
    pub locals: BTreeMap<u32, Val>,
    pub blocks: BTreeMap<u32, usize>,
    /// The environment layout of a closure body.
    pub env: Option<usize>,
    pub tco: Option<TcoFrame>,
    /// What the function returns.
    pub ret: LType,
}

/// The state of one body's emission, mathematically.
#[verifier::ext_equal]
pub struct Scope {
    pub values: Map<u32, Val>,
    pub locals: Map<u32, Val>,
    pub blocks: Map<u32, usize>,
    pub env: Option<usize>,
    pub tco: Option<Loop>,
    pub ret: LType,
}

impl View for Frame {
    type V = Scope;

    open spec fn view(&self) -> Scope {
        Scope {
            values: self.values@,
            locals: self.locals@,
            blocks: self.blocks@,
            env: self.env,
            tco: match self.tco {
                Some(t) => Some(t@),
                None => None,
            },
            ret: self.ret,
        }
    }
}

impl Scope {
    /// The operand of an SSA value.
    pub open spec fn value(self, id: ValueId) -> Option<Val> {
        if self.values.contains_key(id.0) {
            Some(self.values[id.0])
        } else {
            None
        }
    }

    /// The operands of the first `n` of some SSA values.
    pub open spec fn first_values(self, ids: Seq<ValueId>, n: nat) -> Option<Seq<Val>>
        decreases n,
    {
        if n == 0 {
            Some(Seq::empty())
        } else {
            match (self.first_values(ids, (n - 1) as nat), self.value(ids[n - 1])) {
                (Some(vals), Some(v)) => Some(vals.push(v)),
                _ => None,
            }
        }
    }

    /// The operands of some SSA values, where each has one.
    pub open spec fn all_values(self, ids: Seq<ValueId>) -> Option<Seq<Val>> {
        self.first_values(ids, ids.len())
    }

    /// The slot of a local.
    pub open spec fn local(self, id: IRLocalId) -> Option<Val> {
        if self.locals.contains_key(id.0) {
            Some(self.locals[id.0])
        } else {
            None
        }
    }

    /// The block of an IR block.
    pub open spec fn block(self, id: IRBlockId) -> Option<usize> {
        if self.blocks.contains_key(id.0) {
            Some(self.blocks[id.0])
        } else {
            None
        }
    }

    /// The scope in which `id` is `value`.
    pub open spec fn bind(self, id: ValueId, value: Val) -> Scope {
        Scope { values: self.values.insert(id.0, value), ..self }
    }

    /// The scope in which local `id` lives at `slot`.
    pub open spec fn place(self, id: IRLocalId, slot: Val) -> Scope {
        Scope { locals: self.locals.insert(id.0, slot), ..self }
    }
}

/// Some values that miss one in the first `n` miss one in all.
proof fn missing_stays(sc: Scope, ids: Seq<ValueId>, n: nat, m: nat)
    requires
        n <= m <= ids.len(),
        sc.first_values(ids, n) is None,
    ensures
        sc.first_values(ids, m) is None,
    decreases m - n,
{
    if n < m {
        missing_stays(sc, ids, n, (m - 1) as nat);
    }
}

/// What is said of an SSA value that was never bound.
pub open spec fn undefined_value(id: ValueId) -> Seq<char> {
    "undefined SSA value "@ + decimal(id.0 as nat) + " during emission"@
}

/// What is said of a local without a slot.
pub open spec fn undefined_local(id: IRLocalId) -> Seq<char> {
    "local slot "@ + decimal(id.0 as nat) + " not registered"@
}

/// What is said of an IR block that the function does not hold.
pub open spec fn undefined_block(id: IRBlockId) -> Seq<char> {
    "undefined IR block "@ + decimal(id.0 as nat) + " during emission"@
}

impl Scope {
    /// What is said of the first of some values that was never bound, from
    /// the `i`-th on.
    pub open spec fn missing_value(self, ids: Seq<ValueId>, i: nat) -> Seq<char>
        decreases ids.len() - i,
    {
        if i >= ids.len() {
            ""@
        } else if self.value(ids[i as int]) is None {
            undefined_value(ids[i as int])
        } else {
            self.missing_value(ids, i + 1)
        }
    }
}

impl Frame {
    /// The operand of an SSA value.
    pub fn lookup(&self, id: ValueId) -> (r: Result<Val, LlvmError>)
        ensures
            match r {
                Ok(v) => self@.value(id) == Some(v),
                Err(e) => self@.value(id) is None && says(e, undefined_value(id)),
            },
    {
        match self.values.get(&id.0) {
            Some(v) => Ok(*v),
            None => Err(
                LlvmError::Codegen(
                    concat3(
                        "undefined SSA value ",
                        u64_text(id.0 as u64).as_str(),
                        " during emission",
                    ),
                ),
            ),
        }
    }

    /// The operands of some SSA values.
    pub fn lookup_all(&self, ids: &Vec<ValueId>) -> (r: Result<Vec<Val>, LlvmError>)
        ensures
            match r {
                Ok(v) => self@.all_values(ids@) == Some(v@) && v@.len() == ids@.len(),
                Err(e) => self@.all_values(ids@) is None && says(e, self@.missing_value(ids@, 0)),
            },
    {
        let mut out: Vec<Val> = Vec::new();
        let mut i: usize = 0;
        while i < ids.len()
            invariant
                i <= ids.len(),
                out@.len() == i,
                self@.first_values(ids@, i as nat) == Some(out@),
                self@.missing_value(ids@, 0) == self@.missing_value(ids@, i as nat),
            decreases ids.len() - i,
        {
            match self.lookup(ids[i]) {
                Ok(v) => out.push(v),
                Err(e) => {
                    assert(self@.first_values(ids@, (i + 1) as nat) is None);
                    proof {
                        missing_stays(self@, ids@, (i + 1) as nat, ids@.len());
                    }
                    return Err(e);
                },
            }
            i = i + 1;
        }
        Ok(out)
    }

    /// The slot of a local that may not be placed yet.
    pub fn try_local_slot(&self, id: IRLocalId) -> (r: Option<Val>)
        ensures
            r == self@.local(id),
    {
        match self.locals.get(&id.0) {
            Some(v) => Some(*v),
            None => None,
        }
    }

    /// The slot of a local.
    pub fn local_slot(&self, id: IRLocalId) -> (r: Result<Val, LlvmError>)
        ensures
            match r {
                Ok(v) => self@.local(id) == Some(v),
                Err(e) => self@.local(id) is None && says(e, undefined_local(id)),
            },
    {
        match self.locals.get(&id.0) {
            Some(v) => Ok(*v),
            None => Err(
                LlvmError::Codegen(
                    concat3("local slot ", u64_text(id.0 as u64).as_str(), " not registered"),
                ),
            ),
        }
    }

    /// The block of an IR block.
    pub fn lookup_block(&self, id: IRBlockId) -> (r: Result<usize, LlvmError>)
        ensures
            match r {
                Ok(b) => self@.block(id) == Some(b),
                Err(e) => self@.block(id) is None && says(e, undefined_block(id)),
            },
    {
        match self.blocks.get(&id.0) {
            Some(b) => Ok(*b),
            None => Err(
                LlvmError::Codegen(
                    concat3(
                        "undefined IR block ",
                        u64_text(id.0 as u64).as_str(),
                        " during emission",
                    ),
                ),
            ),
        }
    }

    /// Binds an SSA value to its operand.
    pub fn bind(&mut self, id: ValueId, value: Val)
        ensures
            final(self)@ == old(self)@.bind(id, value),
    {
        self.values.insert(id.0, value);
    }

    /// Places a local in its slot.
    pub fn register_local_slot(&mut self, id: IRLocalId, slot: Val)
        ensures
            final(self)@ == old(self)@.place(id, slot),
    {
        self.locals.insert(id.0, slot);
    }
}

} // verus!
