//! What every emission step reads: the program's tables of names, types,
//! declarations, declared functions and measured sizes.
//!
//! A context is filled before any body is emitted and is only read from
//! then on. Look-ups are total: what is not in a table has an answer of
//! its own (`Unit`, no elements, zero bytes, `None`).

use vstd::prelude::*;
use crate::ir::{
    IREnumDecl, IREnumVariant, IRSignature, IRStructDecl, IRStructField, IRSymbol, IRType,
    IRUnionDecl, IRVariantPayload, IRVariantTag,
};
use crate::llvm::LType;
use crate::text::{comes_before, precedes, precedes_further, same};

verus! {

/// Which helper of a type a function is.
#[derive(Clone, Copy, Debug, PartialEq, Eq, Structural)]
pub enum GlueKind {
    Clone,
    DeepCopy,
    Drop,
}

/// A declared helper of a type.
#[derive(Clone, Copy, Debug, PartialEq, Eq, Structural)]
pub struct Glue {
    pub kind: GlueKind,
    pub ty: IRType,
    /// Its place among the declared functions.
    pub function: usize,
}

/// What the environments of one closure body carry in their header.
#[derive(Clone, Copy, Debug, PartialEq, Eq, Structural)]
pub struct ClosureSite {
    pub body: IRSymbol,
    pub copy_fn: Option<usize>,
    pub drop_fn: Option<usize>,
    pub eq_fn: Option<usize>,
    pub site_id: u64,
    /// The layout of its environment.
    pub env: usize,
}

/// A declared function: the name it links under and its signature.
#[derive(Debug)]
pub struct Declared {
    pub symbol: IRSymbol,
    pub name: String,
    pub params: Vec<LType>,
    pub ret: LType,
    /// Whether it is foreign code that returns a float.
    pub foreign_float: bool,
    /// Whether its body is emitted by this program.
    pub defined: bool,
}

/// The measured allocation size of a type.
#[derive(Clone, Copy, Debug, PartialEq, Eq, Structural)]
pub struct Measured {
    pub ty: LType,
    pub bytes: u64,
}

/// The tables.
#[derive(Debug)]
pub struct EmitContext {
    pub symbols: Vec<String>,
    pub types: Vec<IRType>,
    pub tuples: Vec<Vec<IRType>>,
    pub signatures: Vec<IRSignature>,
    pub structs: Vec<IRStructDecl>,
    pub enums: Vec<IREnumDecl>,
    pub unions: Vec<IRUnionDecl>,
    pub envs: Vec<Vec<IRType>>,
    pub closures: Vec<ClosureSite>,
    pub glue: Vec<Glue>,
    pub declared: Vec<Declared>,
    pub measured: Vec<Measured>,
}

/// The first glue entry at or after `i` of the given kind and type.
pub open spec fn first_glue(s: Seq<Glue>, kind: GlueKind, ty: IRType, i: nat) -> Option<usize>
    decreases s.len() - i,
{
    if i >= s.len() {
        None
    } else if s[i as int].kind == kind && s[i as int].ty == ty {
        Some(s[i as int].function)
    } else {
        first_glue(s, kind, ty, i + 1)
    }
}

/// The size recorded first, at or after `i`, for a type.
pub open spec fn first_size(s: Seq<Measured>, ty: LType, i: nat) -> u64
    decreases s.len() - i,
{
    if i >= s.len() {
        0
    } else if s[i as int].ty == ty {
        s[i as int].bytes
    } else {
        first_size(s, ty, i + 1)
    }
}

/// The last function before `i` that is declared for a symbol.
pub open spec fn last_declared(s: Seq<Declared>, symbol: IRSymbol, i: nat) -> Option<usize>
    decreases i,
{
    if i == 0 {
        None
    } else if s[i - 1].symbol == symbol {
        Some((i - 1) as usize)
    } else {
        last_declared(s, symbol, (i - 1) as nat)
    }
}

/// The last function before `i` whose symbol has the name.
pub open spec fn last_named(c: &EmitContext, name: Seq<char>, i: nat) -> Option<usize>
    decreases i,
{
    if i == 0 {
        None
    } else if c.mangled(c.declared@[i - 1].symbol) == name {
        Some((i - 1) as usize)
    } else {
        last_named(c, name, (i - 1) as nat)
    }
}

/// The first symbol at or after `i` that has the name.
pub open spec fn first_symbol(s: Seq<String>, name: Seq<char>, i: nat) -> Option<IRSymbol>
    decreases s.len() - i,
{
    if i >= s.len() {
        None
    } else if s[i as int]@ == name {
        Some(IRSymbol(i as usize))
    } else {
        first_symbol(s, name, i + 1)
    }
}

/// The first closure site of a body at or after `i`.
pub open spec fn first_site(s: Seq<ClosureSite>, body: IRSymbol, i: nat) -> Option<ClosureSite>
    decreases s.len() - i,
{
    if i >= s.len() {
        None
    } else if s[i as int].body == body {
        Some(s[i as int])
    } else {
        first_site(s, body, i + 1)
    }
}

/// The place of the last enum before `i` that has the symbol.
pub open spec fn last_enum(s: Seq<IREnumDecl>, symbol: IRSymbol, i: nat) -> Option<int>
    decreases i,
{
    if i == 0 {
        None
    } else if s[i - 1].symbol == symbol {
        Some(i - 1)
    } else {
        last_enum(s, symbol, (i - 1) as nat)
    }
}

/// The place of the last struct before `i` that has the symbol.
pub open spec fn last_struct(s: Seq<IRStructDecl>, symbol: IRSymbol, i: nat) -> Option<int>
    decreases i,
{
    if i == 0 {
        None
    } else if s[i - 1].symbol == symbol {
        Some(i - 1)
    } else {
        last_struct(s, symbol, (i - 1) as nat)
    }
}

/// The place of the first variant at or after `i` that has the tag.
pub open spec fn first_variant(s: Seq<IREnumVariant>, tag: u8, i: nat) -> Option<int>
    decreases s.len() - i,
{
    if i >= s.len() {
        None
    } else if s[i as int].tag.0 == tag {
        Some(i as int)
    } else {
        first_variant(s, tag, i + 1)
    }
}

/// The tag of the first variant at or after `i` that has the name.
pub open spec fn first_named(s: Seq<IREnumVariant>, name: Seq<char>, i: nat) -> Option<IRVariantTag>
    decreases s.len() - i,
{
    if i >= s.len() {
        None
    } else if s[i as int].name@ == name {
        Some(s[i as int].tag)
    } else {
        first_named(s, name, i + 1)
    }
}

/// The types of a field list.
pub open spec fn field_types(fields: Seq<IRStructField>) -> Seq<IRType> {
    Seq::new(fields.len(), |i: int| fields[i].ir_type)
}

/// The slot types of a variant payload.
pub open spec fn payload_slots(payload: IRVariantPayload) -> Seq<IRType> {
    match payload {
        IRVariantPayload::Unit => Seq::empty(),
        IRVariantPayload::Tuple(types) => types@,
        IRVariantPayload::Struct(fields) => field_types(fields@),
    }
}

impl EmitContext {
    /// The component type at place `i` of the type table.
    pub open spec fn node(&self, i: usize) -> IRType {
        if i < self.types@.len() {
            self.types@[i as int]
        } else {
            IRType::Unit
        }
    }

    /// The mangled name of a symbol.
    pub open spec fn mangled(&self, symbol: IRSymbol) -> Seq<char> {
        if symbol.0 < self.symbols@.len() {
            self.symbols@[symbol.0 as int]@
        } else {
            Seq::empty()
        }
    }

    /// The elements of a tuple type.
    pub open spec fn elements(&self, tuple: usize) -> Seq<IRType> {
        if tuple < self.tuples@.len() {
            self.tuples@[tuple as int]@
        } else {
            Seq::empty()
        }
    }

    /// The members of a union type.
    pub open spec fn members(&self, union: usize) -> Seq<IRType> {
        if union < self.unions@.len() {
            self.unions@[union as int].members@
        } else {
            Seq::empty()
        }
    }

    /// The symbol of a union type.
    pub open spec fn union_symbol(&self, union: usize) -> IRSymbol {
        if union < self.unions@.len() {
            self.unions@[union as int].symbol
        } else {
            IRSymbol(usize::MAX)
        }
    }

    /// The captured types of an environment layout.
    pub open spec fn captures(&self, env: usize) -> Seq<IRType> {
        if env < self.envs@.len() {
            self.envs@[env as int]@
        } else {
            Seq::empty()
        }
    }

    /// What a function type returns, `Unit` when not in the table.
    pub open spec fn result_of(&self, signature: usize) -> IRType {
        if signature < self.signatures@.len() {
            self.signatures@[signature as int].return_type
        } else {
            IRType::Unit
        }
    }

    /// The declared helper of a type.
    pub open spec fn glue_of(&self, kind: GlueKind, ty: IRType) -> Option<usize> {
        first_glue(self.glue@, kind, ty, 0)
    }

    /// The allocation size of a type in bytes, zero when not measured.
    pub open spec fn abi(&self, ty: LType) -> u64 {
        first_size(self.measured@, ty, 0)
    }

    /// The function declared for a symbol; a later declaration wins.
    pub open spec fn function_of(&self, symbol: IRSymbol) -> Option<usize> {
        last_declared(self.declared@, symbol, self.declared@.len())
    }

    /// The function declared for the symbol of a name.
    pub open spec fn function_named(&self, name: Seq<char>) -> Option<usize> {
        last_named(self, name, self.declared@.len())
    }

    /// The closure site of a body.
    pub open spec fn site_of(&self, body: IRSymbol) -> Option<ClosureSite> {
        first_site(self.closures@, body, 0)
    }

    /// The variants of an enum, in declaration order; a later declaration
    /// wins.
    pub open spec fn variants(&self, symbol: IRSymbol) -> Seq<IREnumVariant> {
        match last_enum(self.enums@, symbol, self.enums@.len()) {
            Some(i) => self.enums@[i].variants@,
            None => Seq::empty(),
        }
    }

    /// The slot types of an enum variant's payload, empty when it has
    /// none.
    pub open spec fn payload(&self, symbol: IRSymbol, tag: u8) -> Seq<IRType> {
        match first_variant(self.variants(symbol), tag, 0) {
            Some(i) => payload_slots(self.variants(symbol)[i].payload),
            None => Seq::empty(),
        }
    }

    /// The tag of an enum variant, by name.
    pub open spec fn tag_of(&self, symbol: IRSymbol, name: Seq<char>) -> Option<IRVariantTag> {
        first_named(self.variants(symbol), name, 0)
    }

    /// The field types of a struct; a later declaration wins.
    pub open spec fn fields(&self, symbol: IRSymbol) -> Seq<IRType> {
        match last_struct(self.structs@, symbol, self.structs@.len()) {
            Some(i) => field_types(self.structs@[i].fields@),
            None => Seq::empty(),
        }
    }

    /// The symbol of a mangled name.
    pub open spec fn symbol_of(&self, name: Seq<char>) -> Option<IRSymbol> {
        first_symbol(self.symbols@, name, 0)
    }

    /// Symbols are numbered in the order of their names, each name once.
    pub open spec fn named_in_order(&self) -> bool {
        forall|i: int, j: int|
            0 <= i < j < self.symbols@.len() ==> precedes(
                (#[trigger] self.symbols@[i])@,
                (#[trigger] self.symbols@[j])@,
            )
    }

    /// Whether symbols are numbered in the order of their names.
    pub fn names_in_order(&self) -> (r: bool)
        ensures
            r == self.named_in_order(),
    {
        let mut i: usize = 1;
        while i < self.symbols.len()
            invariant
                1 <= i,
                self.symbols@.len() > 0 ==> i <= self.symbols@.len(),
                forall|a: int, b: int|
                    0 <= a < b < i && b < self.symbols@.len() ==> precedes(
                        (#[trigger] self.symbols@[a])@,
                        (#[trigger] self.symbols@[b])@,
                    ),
            decreases self.symbols@.len() - i,
        {
            if !comes_before(self.symbols[i - 1].as_str(), self.symbols[i].as_str()) {
                assert(!precedes(self.symbols@[i - 1]@, self.symbols@[i as int]@));
                return false;
            }
            assert forall|a: int| 0 <= a < i implies precedes(
                (#[trigger] self.symbols@[a])@,
                self.symbols@[i as int]@,
            ) by {
                if a < i - 1 {
                    precedes_further(
                        self.symbols@[a]@,
                        self.symbols@[i - 1]@,
                        self.symbols@[i as int]@,
                    );
                }
            }
            i = i + 1;
        }
        true
    }

    /// The symbol of a mangled name.
    pub fn symbol_named(&self, name: &str) -> (r: Option<IRSymbol>)
        ensures
            r == self.symbol_of(name@),
    {
        let mut i: usize = 0;
        while i < self.symbols.len()
            invariant
                i <= self.symbols.len(),
                first_symbol(self.symbols@, name@, 0) == first_symbol(
                    self.symbols@,
                    name@,
                    i as nat,
                ),
            decreases self.symbols.len() - i,
        {
            if same(self.symbols[i].as_str(), name) {
                return Some(IRSymbol(i));
            }
            i = i + 1;
        }
        None
    }

    /// The component type at place `i` of the type table.
    pub fn component(&self, i: usize) -> (r: IRType)
        ensures
            r == self.node(i),
    {
        if i < self.types.len() {
            self.types[i]
        } else {
            IRType::Unit
        }
    }

    /// The mangled name of a symbol.
    pub fn name_of(&self, symbol: IRSymbol) -> (r: &str)
        ensures
            r@ == self.mangled(symbol),
    {
        if symbol.0 < self.symbols.len() {
            self.symbols[symbol.0].as_str()
        } else {
            proof {
                reveal_strlit("");
            }
            assert(""@ =~= Seq::<char>::empty());
            ""
        }
    }

    /// How many elements a tuple type has.
    pub fn tuple_len(&self, tuple: usize) -> (r: usize)
        ensures
            r == self.elements(tuple).len(),
    {
        if tuple < self.tuples.len() {
            self.tuples[tuple].len()
        } else {
            0
        }
    }

    /// Element `i` of a tuple type.
    pub fn tuple_element(&self, tuple: usize, i: usize) -> (r: Option<IRType>)
        ensures
            r == (if i < self.elements(tuple).len() {
                Some(self.elements(tuple)[i as int])
            } else {
                None
            }),
    {
        if tuple < self.tuples.len() && i < self.tuples[tuple].len() {
            Some(self.tuples[tuple][i])
        } else {
            None
        }
    }

    /// The symbol of a union type.
    pub fn symbol_of_union(&self, union: usize) -> (r: IRSymbol)
        ensures
            r == self.union_symbol(union),
    {
        if union < self.unions.len() {
            self.unions[union].symbol
        } else {
            IRSymbol(usize::MAX)
        }
    }

    /// What a function type returns.
    pub fn signature_return(&self, signature: usize) -> (r: IRType)
        ensures
            r == self.result_of(signature),
    {
        if signature < self.signatures.len() {
            self.signatures[signature].return_type
        } else {
            IRType::Unit
        }
    }

    /// How many values an environment layout captures.
    pub fn capture_len(&self, env: usize) -> (r: usize)
        ensures
            r == self.captures(env).len(),
    {
        if env < self.envs.len() {
            self.envs[env].len()
        } else {
            0
        }
    }

    /// The type of capture `i` of an environment layout.
    pub fn capture_type(&self, env: usize, i: usize) -> (r: IRType)
        requires
            i < self.captures(env).len(),
        ensures
            r == self.captures(env)[i as int],
    {
        self.envs[env][i]
    }

    /// The declared helper of a type.
    pub fn glue(&self, kind: GlueKind, ty: IRType) -> (r: Option<usize>)
        ensures
            r == self.glue_of(kind, ty),
    {
        let mut i: usize = 0;
        while i < self.glue.len()
            invariant
                i <= self.glue.len(),
                first_glue(self.glue@, kind, ty, 0) == first_glue(self.glue@, kind, ty, i as nat),
            decreases self.glue.len() - i,
        {
            if self.glue[i].kind == kind && self.glue[i].ty == ty {
                return Some(self.glue[i].function);
            }
            i = i + 1;
        }
        None
    }

    /// The allocation size of a type in bytes, zero when not measured.
    pub fn abi_size(&self, ty: LType) -> (r: u64)
        ensures
            r == self.abi(ty),
    {
        let mut i: usize = 0;
        while i < self.measured.len()
            invariant
                i <= self.measured.len(),
                first_size(self.measured@, ty, 0) == first_size(self.measured@, ty, i as nat),
            decreases self.measured.len() - i,
        {
            if self.measured[i].ty == ty {
                return self.measured[i].bytes;
            }
            i = i + 1;
        }
        0
    }

    /// The function declared for a symbol; a later declaration wins.
    pub fn declared_function(&self, symbol: IRSymbol) -> (r: Option<usize>)
        ensures
            r == self.function_of(symbol),
            r matches Some(k) ==> k < self.declared@.len() && self.declared@[k as int].symbol == symbol,
    {
        let mut i: usize = self.declared.len();
        while i > 0
            invariant
                i <= self.declared.len(),
                self.function_of(symbol) == last_declared(self.declared@, symbol, i as nat),
            decreases i,
        {
            if self.declared[i - 1].symbol == symbol {
                return Some(i - 1);
            }
            i = i - 1;
        }
        None
    }

    /// The function declared for the symbol of a name.
    pub fn declared_named(&self, name: &str) -> (r: Option<usize>)
        ensures
            r == self.function_named(name@),
    {
        let mut i: usize = self.declared.len();
        while i > 0
            invariant
                i <= self.declared.len(),
                self.function_named(name@) == last_named(self, name@, i as nat),
            decreases i,
        {
            if same(self.name_of(self.declared[i - 1].symbol), name) {
                return Some(i - 1);
            }
            i = i - 1;
        }
        None
    }

    /// The closure site of a body.
    pub fn closure_site(&self, body: IRSymbol) -> (r: Option<ClosureSite>)
        ensures
            r == self.site_of(body),
    {
        let mut i: usize = 0;
        while i < self.closures.len()
            invariant
                i <= self.closures.len(),
                first_site(self.closures@, body, 0) == first_site(self.closures@, body, i as nat),
            decreases self.closures.len() - i,
        {
            if self.closures[i].body == body {
                return Some(self.closures[i]);
            }
            i = i + 1;
        }
        None
    }

    /// The place of an enum's last declaration.
    pub fn find_enum(&self, symbol: IRSymbol) -> (r: Option<usize>)
        ensures
            match r {
                Some(i) => i < self.enums@.len() && last_enum(self.enums@, symbol, self.enums@.len()) == Some(i as int),
                None => last_enum(self.enums@, symbol, self.enums@.len()) is None,
            },
    {
        let mut i: usize = self.enums.len();
        while i > 0
            invariant
                i <= self.enums.len(),
                last_enum(self.enums@, symbol, self.enums@.len()) == last_enum(self.enums@, symbol, i as nat),
            decreases i,
        {
            i = i - 1;
            if self.enums[i].symbol == symbol {
                return Some(i);
            }
        }
        None
    }

    /// The slot types of an enum variant's payload.
    pub fn enum_variant_payload(&self, symbol: IRSymbol, tag: u8) -> (r: Vec<IRType>)
        ensures
            r@ == self.payload(symbol, tag),
    {
        match self.find_enum(symbol) {
            None => Vec::new(),
            Some(e) => {
                let variants = &self.enums[e].variants;
                let mut i: usize = 0;
                while i < variants.len()
                    invariant
                        i <= variants.len(),
                        variants@ == self.variants(symbol),
                        first_variant(variants@, tag, 0) == first_variant(variants@, tag, i as nat),
                    decreases variants.len() - i,
                {
                    if variants[i].tag.0 == tag {
                        return slots_of(&variants[i].payload);
                    }
                    i = i + 1;
                }
                Vec::new()
            },
        }
    }

    /// The tag of an enum variant, by name.
    pub fn enum_variant_tag(&self, symbol: IRSymbol, name: &str) -> (r: Option<IRVariantTag>)
        ensures
            r == self.tag_of(symbol, name@),
    {
        match self.find_enum(symbol) {
            None => None,
            Some(e) => {
                let variants = &self.enums[e].variants;
                let mut i: usize = 0;
                while i < variants.len()
                    invariant
                        i <= variants.len(),
                        variants@ == self.variants(symbol),
                        first_named(variants@, name@, 0) == first_named(variants@, name@, i as nat),
                    decreases variants.len() - i,
                {
                    if same(variants[i].name.as_str(), name) {
                        return Some(variants[i].tag);
                    }
                    i = i + 1;
                }
                None
            },
        }
    }

    /// The type of a struct's first field.
    pub fn first_field(&self, symbol: IRSymbol) -> (r: Option<IRType>)
        ensures
            r == (if self.fields(symbol).len() > 0 {
                Some(self.fields(symbol)[0])
            } else {
                None
            }),
    {
        match self.find_struct(symbol) {
            Some(i) => if self.structs[i].fields.len() > 0 {
                Some(self.structs[i].fields[0].ir_type)
            } else {
                None
            },
            None => None,
        }
    }

    /// The place of a struct's last declaration.
    pub fn find_struct(&self, symbol: IRSymbol) -> (r: Option<usize>)
        ensures
            match r {
                Some(i) => i < self.structs@.len() && last_struct(self.structs@, symbol, self.structs@.len()) == Some(
                    i as int,
                ),
                None => last_struct(self.structs@, symbol, self.structs@.len()) is None,
            },
    {
        let mut i: usize = self.structs.len();
        while i > 0
            invariant
                i <= self.structs.len(),
                last_struct(self.structs@, symbol, self.structs@.len()) == last_struct(self.structs@, symbol, i as nat),
            decreases i,
        {
            i = i - 1;
            if self.structs[i].symbol == symbol {
                return Some(i);
            }
        }
        None
    }
}

/// The slot types of a variant payload.
fn slots_of(payload: &IRVariantPayload) -> (r: Vec<IRType>)
    ensures
        r@ == payload_slots(*payload),
{
    let mut out: Vec<IRType> = Vec::new();
    match payload {
        IRVariantPayload::Unit => {},
        IRVariantPayload::Tuple(types) => {
            let mut i: usize = 0;
            while i < types.len()
                invariant
                    i <= types.len(),
                    out@ == types@.subrange(0, i as int),
                decreases types.len() - i,
            {
                out.push(types[i]);
                i = i + 1;
            }
            assert(out@ =~= types@);
        },
        IRVariantPayload::Struct(fields) => {
            let mut i: usize = 0;
            while i < fields.len()
                invariant
                    i <= fields.len(),
                    out@ == field_types(fields@).subrange(0, i as int),
                decreases fields.len() - i,
            {
                out.push(fields[i].ir_type);
                i = i + 1;
            }
            assert(out@ =~= field_types(fields@));
        },
    }
    out
}

} // verus!
