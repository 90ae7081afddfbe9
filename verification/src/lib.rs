//! Verified building blocks of the Spider WebAssembly-to-Lua compiler back ends.
//!
//! The graphs the back ends read are held as plain values: [`ir`] for the
//! printers and the register policies, [`flow`] for the Luau local finders,
//! and [`region`] for the local allocator.

// Graph models.
pub mod ir;
pub mod flow;
pub mod region;

// Text.
pub mod text;
pub mod json_text;
pub mod runtime_names;

// The JSON printer.
pub mod color;
pub mod label;
pub mod names;
pub mod interner;
pub mod json_printer;

// Register policies, and the LuaJIT locals, printer state and memory accesses.
pub mod policy;
pub mod luajit;
pub mod memory_access;
pub mod lowering;

// The emitters' expressions and statements.
pub mod luajit_data;
pub mod luajit_emit;
pub mod luajit_tree;
pub mod luau_data;
pub mod luau_emit;
pub mod luau_code;
pub mod parallel_moves;
pub mod luau_emitter;

// Luau local variables: index recycling, places, and providers.
pub mod index_provider;
pub mod place;
pub mod table_provider;
pub mod function_provider;
pub mod scoped_provider;
pub mod local_provider;

// Which values live in locals, and for how long.
pub mod reference_finder;
pub mod local_finder;
pub mod lifetime_finder;

// Stack slots of the outputs of a structured graph.
pub mod local_allocator;
