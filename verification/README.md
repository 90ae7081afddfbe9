# spider

Verified building blocks of the Spider compiler back ends, which turn
WebAssembly into Luau or LuaJIT code. Every function in `src/` carries a
contract that Verus proves; the maps that the back ends keep in
`hashbrown::HashMap`s are reached through small trusted wrappers whose
contracts state what the map operations do.

## Layout

- `src/ir.rs`, `src/flow.rs`, `src/region.rs`: the graphs the back ends read,
  held as plain values.
- `src/json_printer.rs`, `src/label.rs`, `src/names.rs`, `src/interner.rs`,
  `src/color.rs`, `src/json_text.rs`: the JSON rendering of a graph.
- `src/policy.rs`: which nodes the Luau and LuaJIT back ends inline instead
  of giving them a register.
- `src/luajit.rs`: LuaJIT locals, stack size classes and the printer's state.
- `src/memory_access.rs`: the pointer fields and widths of LuaJIT memory
  accesses.
- `src/index_provider.rs`, `src/table_provider.rs`,
  `src/function_provider.rs`, `src/scoped_provider.rs`, `src/place.rs`,
  `src/local_provider.rs`: recycling of Luau local variables by lifetime.
- `src/reference_finder.rs`, `src/local_finder.rs`, `src/lifetime_finder.rs`:
  which values of a data-flow graph live in locals, and until when.
- `src/local_allocator.rs` and `src/local_allocator/`: stack slots for the
  outputs of a structured graph, from the preferences of its regions.
- `src/lowering.rs`: the lowerings of bit reinterpretations, which add no
  node.
- `src/runtime_names.rs`: the names of the Luau runtime functions.
- `src/luajit_data.rs`, `src/luajit_emit.rs`, `src/luajit_tree.rs`: the
  LuaJIT emitter's expressions for the nodes of a function, read through the
  registers the allocator gave them or inlined where deferred, and the
  statements of the LuaJIT tree.
- `src/luau_data.rs`, `src/luau_emit.rs`, `src/luau_code.rs`: the same for
  the Luau emitter, whose operations become runtime library calls, Lua
  operators and bit32 or math calls, and its scopes of statements.
- `src/parallel_moves.rs`: a parallel move of locals turned into
  assignments and swaps run one after another, proved to give every
  destination its source's original value.
- `src/luau_emitter.rs`: the Luau emitter proper: each node of a region
  becomes the statements that compute it, and a function becomes its
  declared locals, body and results.
- `tests/`: tests on concrete values, run against the compiled library.
