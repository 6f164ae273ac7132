# koja_ir_llvm

The LLVM backend of the Koja compiler: it lowers a sealed program (types,
functions, basic blocks) to an LLVM module. Every function of the library
has a contract that Verus proves.

## How it works

A function body is recorded as plain values: a log of instructions, each
stamped with its block, beside logs of stack slots, phi edges and string
literals (`src/llvm.rs`). Emitters append to that log, and their contracts
say which instructions they append (`..._code`). The finished bodies are
printed as LLVM assembly (`src/print/`), which LLVM parses, verifies and
prints back (`src/native.rs`, the only place where code outside the library
is trusted).

| Place | What is there |
| --- | --- |
| `src/ir.rs`, `src/ctx.rs`, `src/types.rs` | programs, their tables, the types they are lowered to |
| `src/emit/` | instructions, blocks, closures, operators, matches |
| `src/intrinsics/` | bodies of `@intrinsic` functions: lists, tables, hashing, processes and more |
| `src/layout/` | order and layout of declared types, the wire contract of enums |
| `src/function.rs`, `src/program.rs` | declaring and defining functions, whole modules |
| `src/print/` | the text of a module |
| `src/semantics.rs`, `src/memory.rs`, `src/ownership.rs` | what recorded code computes, stores and owns |
| `app/` | object files and debug information |
| `tests/` | modules handed to LLVM, bodies run on a small machine, parts on their own |

## What is proved beyond the contracts

Over the meaning of recorded code (`src/semantics.rs`):

- hashes are SplitMix64 and FNV-1a of their input;
- list methods, `pop` among them, give back the elements that their names
  promise;
- `Map.put`, `Map.get`, `Set.insert`, `has?` and `remove` agree with one
  another, through growth and rehashing, and leave other keys their values;
- a table holds a key once, counts its entries and keeps both through every
  write (`src/intrinsics/hashtable/proper.rs`); `next` visits each entry once;
- `Set.from_list` gives back the items of the list and nothing else;
- elements that own heap are acquired one by one, through their count or
  their clone glue, whatever the glue makes of them
  (`src/intrinsics/acquiring.rs`);
- a binary match takes a subject exactly where every segment fits it, and
  binds each name to the bits of its segment (`src/emit/matching.rs`);
- literals, shims and block labels that are printed never share a name
  (`src/print/values.rs`);
- the sizes that variants and unions are laid out by are LLVM's, all under
  one data layout, which the module then states (`src/program.rs`);
- the list methods and `put`, `insert`, `remove`, `get`, `has?` and `next` of
  tables write to what they made and to nothing else;
- division, conversions, binary segments, concatenation and closure
  equality compute what they say.
