//! The Luau emitter: each node of a region becomes the statements that
//! compute it, appended to the innermost open scope.
//!
//! A node whose output carries the state of a global, a table or a memory
//! first moves the reference it works on into the local of its state port
//! (a bridge); value nodes are assigned to their local or, when deferred,
//! kept for their one reader; effects become calls of the runtime library.
//! A node with a state port keeps its values first and its state after
//! them, and a copy the state of its destination before that of its source.

use vstd::prelude::*;

use crate::ir::{Link, LoadType, StoreType};
use crate::luajit::{
    collect_argument_names, fast_locals_for, names_between, size_classes, spill_of, stack_size_class_for,
    Local, Name,
};
use crate::policy::PHYSICAL_REGISTERS;
use crate::luajit_data::{has_local, has_port, local_for, register_of, RegisterArena, DEFERRED};
use crate::luajit_emit::can_emit;
use crate::luau_code::{pushed, CodeHandler, Sequence, Statement};
use crate::luau_data::{
    after_all, all_loadable, is_apply, link_list1, link_list2, link_list3, load_all_result,
    loaded_all, DataHandler, Expression,
};
use crate::luau_emit::{emit_expression, emit_or_defer, is_luau_value, value_reads, LuauForeign, LuauValue};
use crate::parallel_moves::{distinct_destinations, performs};
use crate::runtime_names::{memory_load_name, memory_load_runtime, memory_store_name, memory_store_runtime};

verus! {

/// What the emitter holds: the registers, the expressions kept for deferred
/// nodes, the open scopes of statements, and the region being emitted.
pub struct EmitView {
    pub arena: Seq<Seq<Seq<u32>>>,
    pub stored: Map<(u32, u32), Expression>,
    pub code: Seq<Seq<Statement>>,
    pub region: u32,
}

/// The locals of the first `count` ports of node `id`.
pub open spec fn port_locals_of(arena: Seq<Seq<Seq<u32>>>, region: u32, id: u32, count: nat) -> Seq<Local> {
    Seq::new(count, |port: int| local_for(register_of(arena, region, Link { node: id, port: port as u16 })))
}

/// The moves of a transfer: each destination takes the local of its source.
pub open spec fn transfer_pairs(
    arena: Seq<Seq<Seq<u32>>>,
    region: u32,
    destinations: Seq<Local>,
    sources: Seq<Link>,
) -> Seq<(Local, Local)> {
    Seq::new(
        sources.len(),
        |i: int| (destinations[i], local_for(register_of(arena, region, sources[i]))),
    )
}

/// Whether every source has a register with a local.
pub open spec fn sources_have_locals(arena: Seq<Seq<Seq<u32>>>, region: u32, sources: Seq<Link>) -> bool {
    forall|i: int|
        0 <= i < sources.len() ==> has_port(arena, region, #[trigger] sources[i]) && has_local(
            register_of(arena, region, sources[i]),
        )
}

/// The move of a bridge: the local of the state port takes the local of
/// the reference the node works on.
pub open spec fn bridge_pairs(
    arena: Seq<Seq<Seq<u32>>>,
    region: u32,
    id: u32,
    port: u16,
    source: Link,
) -> Seq<(Local, Local)> {
    transfer_pairs(
        arena,
        region,
        seq![local_for(register_of(arena, region, Link { node: id, port }))],
        seq![source],
    )
}

/// Whether a bridge from `source` into port `port` of node `id` can be made.
pub open spec fn can_bridge(arena: Seq<Seq<Seq<u32>>>, region: u32, id: u32, port: u16, source: Link) -> bool {
    sources_have_locals(arena, region, seq![Link { node: id, port }, source])
}

/// Whether `after` is `before` with, in its innermost scope, statements that
/// perform the parallel move `pairs` and then `extra` more statements.
pub open spec fn moves_then(
    before: Seq<Seq<Statement>>,
    after: Seq<Seq<Statement>>,
    pairs: Seq<(Local, Local)>,
    extra: int,
) -> bool {
    let b = before.last();
    let a = after.last();
    &&& before.len() > 0
    &&& after.len() == before.len()
    &&& after.drop_last() == before.drop_last()
    &&& 0 <= extra
    &&& b.len() + extra <= a.len()
    &&& a.take(b.len() as int) == b
    &&& performs(a.subrange(b.len() as int, a.len() - extra), pairs)
    &&& pairs.len() == 0 ==> a.len() == b.len() + extra
}

/// A node that moves values between locals: the moves `pairs`, nothing read.
pub open spec fn then_moves(before: EmitView, after: EmitView, pairs: Seq<(Local, Local)>) -> bool {
    &&& after.arena == before.arena
    &&& after.region == before.region
    &&& after.stored == before.stored
    &&& moves_then(before.code, after.code, pairs, 0)
}

/// A node that ends in a statement: the moves `pairs`, then the links
/// `reads` read in order, then one statement of the shape `shape` of what
/// was read.
pub open spec fn then_statement(
    before: EmitView,
    after: EmitView,
    pairs: Seq<(Local, Local)>,
    reads: Seq<Link>,
    shape: spec_fn(Statement, Seq<Expression>) -> bool,
) -> bool {
    &&& after.arena == before.arena
    &&& after.region == before.region
    &&& after.stored == after_all(before.arena, before.stored, before.region, reads)
    &&& moves_then(before.code, after.code, pairs, 1)
    &&& shape(after.code.last().last(), loaded_all(before.arena, before.stored, before.region, reads))
}

/// A node with a value: the moves `pairs`, then the links `reads` read in
/// order, then its value, of the shape `shape` of what was read, kept for
/// its reader when it is deferred and assigned to its local otherwise.
pub open spec fn then_value(
    before: EmitView,
    after: EmitView,
    id: u32,
    pairs: Seq<(Local, Local)>,
    reads: Seq<Link>,
    shape: spec_fn(Expression, Seq<Expression>) -> bool,
) -> bool {
    let register = register_of(before.arena, before.region, Link { node: id, port: 0 });
    let read = loaded_all(before.arena, before.stored, before.region, reads);
    let left = after_all(before.arena, before.stored, before.region, reads);
    &&& after.arena == before.arena
    &&& after.region == before.region
    &&& if register == DEFERRED {
        &&& moves_then(before.code, after.code, pairs, 0)
        &&& after.stored.contains_key((before.region, id))
        &&& after.stored == left.insert((before.region, id), after.stored[(before.region, id)])
        &&& shape(after.stored[(before.region, id)], read)
    } else {
        &&& after.stored == left
        &&& (moves_then(before.code, after.code, pairs, 0) && shape(
            Expression::Local(local_for(register)),
            read,
        )) || (moves_then(before.code, after.code, pairs, 1) && assigns(
            after.code.last().last(),
            local_for(register),
            read,
            shape,
        ))
    }
}

/// Whether `statement` assigns to `destination` a value of the shape
/// `shape` of what was read.
pub open spec fn assigns(
    statement: Statement,
    destination: Local,
    read: Seq<Expression>,
    shape: spec_fn(Expression, Seq<Expression>) -> bool,
) -> bool {
    statement matches Statement::Assign { destination: target, source } && target == destination && shape(
        source,
        read,
    )
}

/// A call with no results of the function named `name` on what was read.
pub open spec fn effect_call(statement: Statement, name: Seq<char>, read: Seq<Expression>) -> bool {
    statement matches Statement::Call { results, call } && results@.len() == 0 && is_apply(call, name, read)
}

/// A value that calls the function named `name` on what was read.
pub open spec fn apply_shape(name: Seq<char>) -> spec_fn(Expression, Seq<Expression>) -> bool {
    |e: Expression, read: Seq<Expression>| is_apply(e, name, read)
}

/// A statement that calls the function named `name` on what was read and
/// binds no result.
pub open spec fn effect_shape(name: Seq<char>) -> spec_fn(Statement, Seq<Expression>) -> bool {
    |s: Statement, read: Seq<Expression>| effect_call(s, name, read)
}

/// A statement that calls the function named `name` on what was read and
/// binds its results to `results`.
pub open spec fn results_shape(name: Seq<char>, results: Seq<Local>) -> spec_fn(Statement, Seq<Expression>) -> bool {
    |s: Statement, read: Seq<Expression>|
        s matches Statement::Call { results: bound, call } && bound@ == results && is_apply(call, name, read)
}

/// A statement that calls what was read first with the rest as arguments
/// and binds its results to `results`.
pub open spec fn call_shape(results: Seq<Local>) -> spec_fn(Statement, Seq<Expression>) -> bool {
    |s: Statement, read: Seq<Expression>|
        s matches Statement::Call { results: bound, call } && bound@ == results && calls(call, read)
}

/// Whether `call` calls what was read first with the rest as arguments.
pub open spec fn calls(call: Expression, read: Seq<Expression>) -> bool {
    call matches Expression::Call { function, arguments } && *function == read[0] && arguments@
        == read.drop_first()
}

/// The call that exports what was read under `identifier`.
pub open spec fn export_shape(identifier: String) -> spec_fn(Statement, Seq<Expression>) -> bool {
    |s: Statement, read: Seq<Expression>|
        s matches Statement::Call { results, call } && results@.len() == 0 && is_apply(
            call,
            "rt_export"@,
            seq![Expression::String(identifier), read[0]],
        )
}

/// The buffer call `name` on the buffer of the record read first, then the
/// offset and value read after it.
pub open spec fn buffer_store_shape(name: Seq<char>) -> spec_fn(Statement, Seq<Expression>) -> bool {
    |s: Statement, read: Seq<Expression>|
        s matches Statement::Call { results, call } && results@.len() == 0 && is_apply(
            call,
            name,
            seq![Expression::Extract { source: Box::new(read[0]), index: 0 }, read[1], read[2]],
        )
}

/// The write of the third value read at the second of the first.
pub open spec fn set_index_shape() -> spec_fn(Statement, Seq<Expression>) -> bool {
    |s: Statement, read: Seq<Expression>|
        s == (Statement::SetIndex { table: read[0], offset: read[1], value: read[2] })
}

/// The write of the second value read into the cell of the first: a cell
/// is a one-field record, written at index one.
pub open spec fn cell_set_shape() -> spec_fn(Statement, Seq<Expression>) -> bool {
    |s: Statement, read: Seq<Expression>|
        s == (Statement::SetIndex { table: read[0], offset: Expression::I32(1), value: read[1] })
}

/// The value of the cell read.
pub open spec fn cell_get_shape() -> spec_fn(Expression, Seq<Expression>) -> bool {
    |e: Expression, read: Seq<Expression>| e == (Expression::GlobalGet { source: Box::new(read[0]) })
}

/// The length of the table read.
pub open spec fn table_length_shape() -> spec_fn(Expression, Seq<Expression>) -> bool {
    |e: Expression, read: Seq<Expression>| e == (Expression::TableSize { source: Box::new(read[0]) })
}

/// What the value node `value` becomes.
pub open spec fn value_shape(value: LuauValue) -> spec_fn(Expression, Seq<Expression>) -> bool {
    |e: Expression, read: Seq<Expression>| is_luau_value(e, value, read)
}

/// The link of port `port` of node `id`.
pub open spec fn port_link(id: u32, port: u16) -> Link {
    Link { node: id, port }
}

/// A node of a region as the Luau emitter reads it.
pub enum EmitNode {
    /// A node that computes a value.
    Value(LuauValue),
    /// The arguments or results of a function, a branch or a repetition,
    /// which live in the registers the allocator gave them.
    Boundary,
    /// The end of a repetition's body: while `condition` holds, the body
    /// runs again with `sources` moved into the outputs of its argument
    /// node `arguments`.
    RepeatResults { condition: Link, sources: Vec<Link>, arguments: u32 },
    /// Passes each source through to the output of the same position.
    Identity { sources: Vec<Link> },
    /// Orders effects, passing each source through like an identity.
    Fence { sources: Vec<Link> },
    /// A call of `function` with `arguments`, yielding `result_count` values.
    Apply { function: Link, arguments: Vec<Link>, result_count: u16 },
    WasmExport { identifier: String, value: Link },
    TuringTell { character: Link },
    /// A store through the buffer function `name`.
    BufferStore { name: &'static str, reference: Link, offset: Link, value: Link },
    TableStore { reference: Link, offset: Link, value: Link },
    /// The two 32-bit halves of a 64-bit integer's bits.
    FromBitsI64 { source: Link },
    MutableGet { source: Link },
    MutableSet { destination: Link, source: Link },
    TableGet { reference: Link, offset: Link },
    TableSet { reference: Link, offset: Link, source: Link },
    TableSize { source: Link },
    TableGrow { destination: Link, initializer: Link, size: Link },
    TableFill { reference: Link, offset: Link, source: Link, size: Link },
    TableCopy {
        destination_reference: Link,
        destination_offset: Link,
        source_reference: Link,
        source_offset: Link,
        size: Link,
    },
    TableDrop { source: Link },
    MemoryLoad { reference: Link, offset: Link, kind: LoadType },
    MemoryStore { reference: Link, offset: Link, source: Link, kind: StoreType },
    MemorySize { source: Link },
    MemoryGrow { destination: Link, size: Link },
    MemoryFill { reference: Link, offset: Link, byte: Link, size: Link },
    MemoryCopy {
        destination_reference: Link,
        destination_offset: Link,
        source_reference: Link,
        source_offset: Link,
        size: Link,
    },
    MemoryDrop { source: Link },
}

/// The moves of a copy: the locals of its two state ports take those of
/// the destination and the source it copies between.
pub open spec fn copy_pairs(
    arena: Seq<Seq<Seq<u32>>>,
    region: u32,
    id: u32,
    destination: Link,
    source: Link,
) -> Seq<(Local, Local)> {
    transfer_pairs(
        arena,
        region,
        seq![
            local_for(register_of(arena, region, port_link(id, 0))),
            local_for(register_of(arena, region, port_link(id, 1))),
        ],
        seq![destination, source],
    )
}

/// Whether a copy's moves can be made: every local exists and the two state
/// ports have distinct locals.
pub open spec fn can_copy(arena: Seq<Seq<Seq<u32>>>, region: u32, id: u32, destination: Link, source: Link) -> bool {
    &&& sources_have_locals(arena, region, seq![port_link(id, 0), port_link(id, 1), destination, source])
    &&& local_for(register_of(arena, region, port_link(id, 0))) != local_for(
        register_of(arena, region, port_link(id, 1)),
    )
}

/// The links a copy reads: its destination state, the destination offset,
/// its source state, the source offset and the size.
pub open spec fn copy_reads(id: u32, destination_offset: Link, source_offset: Link, size: Link) -> Seq<Link> {
    seq![port_link(id, 0), destination_offset, port_link(id, 1), source_offset, size]
}

/// Whether node `node`, at position `id`, can be emitted from the state `view`.
pub open spec fn emittable(view: EmitView, node: EmitNode, id: u32) -> bool {
    let (a, r, s) = (view.arena, view.region, view.stored);
    &&& view.code.len() > 0
    &&& match node {
        EmitNode::Value(value) => all_loadable(a, s, r, value_reads(value)) && can_emit(a, r, id),
        EmitNode::Boundary => true,
        EmitNode::RepeatResults { condition, sources, arguments } => view.code.len() > 1 && all_loadable(
            a,
            s,
            r,
            seq![condition],
        ) && identity_ok(a, r, arguments, sources@),
        EmitNode::Identity { sources } => identity_ok(a, r, id, sources@),
        EmitNode::Fence { sources } => identity_ok(a, r, id, sources@),
        EmitNode::Apply { function, arguments, result_count } => all_loadable(
            a,
            s,
            r,
            seq![function] + arguments@,
        ) && crate::luajit_data::ports_have_locals(a, r, id, result_count),
        EmitNode::WasmExport { value, .. } => all_loadable(a, s, r, seq![value]),
        EmitNode::TuringTell { character } => all_loadable(a, s, r, seq![character]),
        EmitNode::BufferStore { reference, offset, value, .. } => can_bridge(a, r, id, 0, reference)
            && all_loadable(a, s, r, seq![port_link(id, 0), offset, value]),
        EmitNode::TableStore { reference, offset, value } => can_bridge(a, r, id, 0, reference)
            && all_loadable(a, s, r, seq![port_link(id, 0), offset, value]),
        EmitNode::FromBitsI64 { source } => all_loadable(a, s, r, seq![source]) && has_port(
            a,
            r,
            port_link(id, 0),
        ) && (register_of(a, r, port_link(id, 0)) == DEFERRED || crate::luajit_data::ports_have_locals(
            a,
            r,
            id,
            2,
        )),
        EmitNode::MutableGet { source } => can_bridge(a, r, id, 1, source) && all_loadable(
            a,
            s,
            r,
            seq![port_link(id, 1)],
        ) && can_emit(a, r, id),
        EmitNode::MutableSet { destination, source } => can_bridge(a, r, id, 0, destination)
            && all_loadable(a, s, r, seq![port_link(id, 0), source]),
        EmitNode::TableGet { reference, offset } => can_bridge(a, r, id, 1, reference) && all_loadable(
            a,
            s,
            r,
            seq![port_link(id, 1), offset],
        ) && can_emit(a, r, id),
        EmitNode::TableSet { reference, offset, source } => can_bridge(a, r, id, 0, reference)
            && all_loadable(a, s, r, seq![port_link(id, 0), offset, source]),
        EmitNode::TableSize { source } => can_bridge(a, r, id, 1, source) && all_loadable(
            a,
            s,
            r,
            seq![port_link(id, 1)],
        ) && can_emit(a, r, id),
        EmitNode::TableGrow { destination, initializer, size } => can_bridge(a, r, id, 1, destination)
            && all_loadable(a, s, r, seq![port_link(id, 1), initializer, size]) && can_emit(a, r, id),
        EmitNode::TableFill { reference, offset, source, size } => can_bridge(a, r, id, 0, reference)
            && all_loadable(a, s, r, seq![port_link(id, 0), offset, source, size]),
        EmitNode::TableCopy { destination_reference, destination_offset, source_reference, source_offset, size } =>
            can_copy(a, r, id, destination_reference, source_reference) && all_loadable(
            a,
            s,
            r,
            copy_reads(id, destination_offset, source_offset, size),
        ),
        EmitNode::TableDrop { source } => can_bridge(a, r, id, 0, source) && all_loadable(
            a,
            s,
            r,
            seq![port_link(id, 0)],
        ),
        EmitNode::MemoryLoad { reference, offset, .. } => can_bridge(a, r, id, 1, reference)
            && all_loadable(a, s, r, seq![port_link(id, 1), offset]) && can_emit(a, r, id),
        EmitNode::MemoryStore { reference, offset, source, .. } => can_bridge(a, r, id, 0, reference)
            && all_loadable(a, s, r, seq![port_link(id, 0), offset, source]),
        EmitNode::MemorySize { source } => can_bridge(a, r, id, 1, source) && all_loadable(
            a,
            s,
            r,
            seq![port_link(id, 1)],
        ) && can_emit(a, r, id),
        EmitNode::MemoryGrow { destination, size } => can_bridge(a, r, id, 1, destination)
            && all_loadable(a, s, r, seq![port_link(id, 1), size]) && can_emit(a, r, id),
        EmitNode::MemoryFill { reference, offset, byte, size } => can_bridge(a, r, id, 0, reference)
            && all_loadable(a, s, r, seq![port_link(id, 0), offset, byte, size]),
        EmitNode::MemoryCopy { destination_reference, destination_offset, source_reference, source_offset, size } =>
            can_copy(a, r, id, destination_reference, source_reference) && all_loadable(
            a,
            s,
            r,
            copy_reads(id, destination_offset, source_offset, size),
        ),
        EmitNode::MemoryDrop { source } => can_bridge(a, r, id, 0, source) && all_loadable(
            a,
            s,
            r,
            seq![port_link(id, 0)],
        ),
    }
}

/// The innermost scope closed as the body of a loop on the value read from
/// `condition`, whose rotation performs the moves `pairs`.
pub open spec fn repeat_closed(
    before: EmitView,
    after: EmitView,
    condition: Link,
    pairs: Seq<(Local, Local)>,
) -> bool {
    &&& after.arena == before.arena
    &&& after.region == before.region
    &&& after.stored == crate::luau_data::after_load(before.arena, before.stored, before.region, condition)
    &&& after.code.len() == before.code.len() - 1
    &&& after.code.drop_last() == before.code.drop_last().drop_last()
    &&& after.code.last().len() > 0
    &&& after.code.last().drop_last() == before.code.drop_last().last()
    &&& after.code.last().last() matches Statement::Repeat { code, condition: tested, rotation }
        && code.statements@ == before.code.last() && tested == crate::luau_data::loaded(
        before.arena,
        before.stored,
        before.region,
        condition,
    ) && performs(rotation.statements@, pairs)
}

/// Whether an identity's outputs and sources all have locals, with no two
/// outputs in one local.
pub open spec fn identity_ok(arena: Seq<Seq<Seq<u32>>>, region: u32, id: u32, sources: Seq<Link>) -> bool {
    &&& sources.len() <= u16::MAX
    &&& crate::luajit_data::ports_have_locals(arena, region, id, sources.len() as u16)
    &&& sources_have_locals(arena, region, sources)
    &&& distinct_destinations(
        transfer_pairs(arena, region, port_locals_of(arena, region, id, sources.len()), sources),
    )
}

/// What emitting node `node`, at position `id`, does to the state `before`.
pub open spec fn handled(before: EmitView, node: EmitNode, id: u32, after: EmitView) -> bool {
    let (a, r) = (before.arena, before.region);
    match node {
        EmitNode::Value(value) => then_value(before, after, id, Seq::empty(), value_reads(value), value_shape(value)),
        EmitNode::Boundary => after == before,
        EmitNode::RepeatResults { condition, sources, arguments } => repeat_closed(
            before,
            after,
            condition,
            transfer_pairs(a, r, port_locals_of(a, r, arguments, sources@.len()), sources@),
        ),
        EmitNode::Identity { sources } => then_moves(
            before,
            after,
            transfer_pairs(a, r, port_locals_of(a, r, id, sources@.len()), sources@),
        ),
        EmitNode::Fence { sources } => then_moves(
            before,
            after,
            transfer_pairs(a, r, port_locals_of(a, r, id, sources@.len()), sources@),
        ),
        EmitNode::Apply { function, arguments, result_count } => then_statement(
            before,
            after,
            Seq::empty(),
            seq![function] + arguments@,
            call_shape(port_locals_of(a, r, id, result_count as nat)),
        ),
        EmitNode::WasmExport { identifier, value } => then_statement(
            before,
            after,
            Seq::empty(),
            seq![value],
            export_shape(identifier),
        ),
        EmitNode::TuringTell { character } => then_statement(
            before,
            after,
            Seq::empty(),
            seq![character],
            effect_shape("rt_turing_tell"@),
        ),
        EmitNode::BufferStore { name, reference, offset, value } => then_statement(
            before,
            after,
            bridge_pairs(a, r, id, 0, reference),
            seq![port_link(id, 0), offset, value],
            buffer_store_shape(name@),
        ),
        EmitNode::TableStore { reference, offset, value } => then_statement(
            before,
            after,
            bridge_pairs(a, r, id, 0, reference),
            seq![port_link(id, 0), offset, value],
            set_index_shape(),
        ),
        EmitNode::FromBitsI64 { source } => if register_of(a, r, port_link(id, 0)) == DEFERRED {
            then_value(before, after, id, Seq::empty(), seq![source], apply_shape("from_bits_i64"@))
        } else {
            then_statement(
                before,
                after,
                Seq::empty(),
                seq![source],
                results_shape("from_bits_i64"@, port_locals_of(a, r, id, 2)),
            )
        },
        EmitNode::MutableGet { source } => then_value(
            before,
            after,
            id,
            bridge_pairs(a, r, id, 1, source),
            seq![port_link(id, 1)],
            cell_get_shape(),
        ),
        EmitNode::MutableSet { destination, source } => then_statement(
            before,
            after,
            bridge_pairs(a, r, id, 0, destination),
            seq![port_link(id, 0), source],
            cell_set_shape(),
        ),
        EmitNode::TableGet { reference, offset } => then_value(
            before,
            after,
            id,
            bridge_pairs(a, r, id, 1, reference),
            seq![port_link(id, 1), offset],
            apply_shape("rt_table_get"@),
        ),
        EmitNode::TableSet { reference, offset, source } => then_statement(
            before,
            after,
            bridge_pairs(a, r, id, 0, reference),
            seq![port_link(id, 0), offset, source],
            effect_shape("rt_table_set"@),
        ),
        EmitNode::TableSize { source } => then_value(
            before,
            after,
            id,
            bridge_pairs(a, r, id, 1, source),
            seq![port_link(id, 1)],
            table_length_shape(),
        ),
        EmitNode::TableGrow { destination, initializer, size } => then_value(
            before,
            after,
            id,
            bridge_pairs(a, r, id, 1, destination),
            seq![port_link(id, 1), initializer, size],
            apply_shape("rt_table_grow"@),
        ),
        EmitNode::TableFill { reference, offset, source, size } => then_statement(
            before,
            after,
            bridge_pairs(a, r, id, 0, reference),
            seq![port_link(id, 0), offset, source, size],
            effect_shape("rt_table_fill"@),
        ),
        EmitNode::TableCopy { destination_reference, destination_offset, source_reference, source_offset, size } =>
            then_statement(
            before,
            after,
            copy_pairs(a, r, id, destination_reference, source_reference),
            copy_reads(id, destination_offset, source_offset, size),
            effect_shape("rt_table_copy"@),
        ),
        EmitNode::TableDrop { source } => then_statement(
            before,
            after,
            bridge_pairs(a, r, id, 0, source),
            seq![port_link(id, 0)],
            effect_shape("rt_table_drop"@),
        ),
        EmitNode::MemoryLoad { reference, offset, kind } => then_value(
            before,
            after,
            id,
            bridge_pairs(a, r, id, 1, reference),
            seq![port_link(id, 1), offset],
            apply_shape(memory_load_runtime(kind)),
        ),
        EmitNode::MemoryStore { reference, offset, source, kind } => then_statement(
            before,
            after,
            bridge_pairs(a, r, id, 0, reference),
            seq![port_link(id, 0), offset, source],
            effect_shape(memory_store_runtime(kind)),
        ),
        EmitNode::MemorySize { source } => then_value(
            before,
            after,
            id,
            bridge_pairs(a, r, id, 1, source),
            seq![port_link(id, 1)],
            apply_shape("rt_memory_size"@),
        ),
        EmitNode::MemoryGrow { destination, size } => then_value(
            before,
            after,
            id,
            bridge_pairs(a, r, id, 1, destination),
            seq![port_link(id, 1), size],
            apply_shape("rt_memory_grow"@),
        ),
        EmitNode::MemoryFill { reference, offset, byte, size } => then_statement(
            before,
            after,
            bridge_pairs(a, r, id, 0, reference),
            seq![port_link(id, 0), offset, byte, size],
            effect_shape("rt_memory_fill"@),
        ),
        EmitNode::MemoryCopy { destination_reference, destination_offset, source_reference, source_offset, size } =>
            then_statement(
            before,
            after,
            copy_pairs(a, r, id, destination_reference, source_reference),
            copy_reads(id, destination_offset, source_offset, size),
            effect_shape("rt_memory_copy"@),
        ),
        EmitNode::MemoryDrop { source } => then_statement(
            before,
            after,
            bridge_pairs(a, r, id, 0, source),
            seq![port_link(id, 0)],
            effect_shape("rt_memory_drop"@),
        ),
    }
}

/// Whether the nodes from position `k` on can be emitted one after the
/// other from the state `view`, whatever each leaves behind.
pub open spec fn emits_from(view: EmitView, nodes: Seq<EmitNode>, k: int) -> bool
    decreases nodes.len() - k,
{
    if k < 0 || k >= nodes.len() || k > u32::MAX {
        true
    } else {
        &&& emittable(view, nodes[k], k as u32)
        &&& forall|after: EmitView| #[trigger] handled(view, nodes[k], k as u32, after) ==> emits_from(after, nodes, k + 1)
    }
}

/// Whether emitting the nodes from position `k` on, one after the other,
/// takes the state `view` to `last`.
pub open spec fn emitted_from(view: EmitView, nodes: Seq<EmitNode>, k: int, last: EmitView) -> bool
    decreases nodes.len() - k,
{
    if k < 0 || k >= nodes.len() || k > u32::MAX {
        last == view
    } else {
        exists|middle: EmitView| #[trigger] handled(view, nodes[k], k as u32, middle) && emitted_from(middle, nodes, k + 1, last)
    }
}

/// A function of the Luau tree: its argument names, the other locals it
/// declares, the stack table it acquires, its body and what it gives back.
pub struct FunctionTree {
    pub arguments: Vec<Name>,
    pub locals: Vec<Name>,
    pub stack: u16,
    pub code: Sequence,
    pub returned: Vec<Expression>,
}

/// The state in which a function's outer region is emitted: its registers,
/// the stored expressions so far, a new scope and region 0.
pub open spec fn function_start(view: EmitView, arena: Seq<Seq<Seq<u32>>>) -> EmitView {
    EmitView { arena, stored: view.stored, code: view.code.push(Seq::empty()), region: 0 }
}

/// Whether a function can be emitted: its nodes one after another, and
/// then its results read, whatever the nodes leave behind.
pub open spec fn function_emittable(
    start: EmitView,
    nodes: Seq<EmitNode>,
    results: Seq<Link>,
) -> bool {
    &&& nodes.len() <= u32::MAX
    &&& emits_from(start, nodes, 0)
    &&& forall|last: EmitView| #[trigger] emitted_from(start, nodes, 0, last) ==> all_loadable(
        last.arena,
        last.stored,
        last.region,
        results,
    )
}

proof fn lemma_handled_keeps(before: EmitView, node: EmitNode, id: u32, after: EmitView)
    requires
        handled(before, node, id, after),
    ensures
        after.arena == before.arena,
        after.region == before.region,
        after.code.len() == before.code.len() - if node is RepeatResults { 1int } else { 0int },
{
}

proof fn lemma_emitted_keeps(view: EmitView, nodes: Seq<EmitNode>, k: int, last: EmitView)
    requires
        emits_from(view, nodes, k),
        emitted_from(view, nodes, k, last),
        view.code.len() > 0,
    ensures
        last.arena == view.arena,
        last.region == view.region,
        last.code.len() > 0,
    decreases nodes.len() - k,
{
    if !(k < 0 || k >= nodes.len() || k > u32::MAX) {
        let middle = choose|middle: EmitView| #[trigger] handled(view, nodes[k], k as u32, middle) && emitted_from(middle, nodes, k + 1, last);
        lemma_handled_keeps(view, nodes[k], k as u32, middle);
        lemma_emitted_keeps(middle, nodes, k + 1, last);
    }
}

proof fn lemma_moves_start(code: Seq<Seq<Statement>>)
    requires
        code.len() > 0,
    ensures
        moves_then(code, code, Seq::empty(), 0),
{
    assert(code.last().take(code.last().len() as int) =~= code.last());
    assert(code.last().subrange(code.last().len() as int, code.last().len() as int) =~= Seq::<Statement>::empty());
}

proof fn lemma_moves_push(
    before: Seq<Seq<Statement>>,
    middle: Seq<Seq<Statement>>,
    statement: Statement,
    pairs: Seq<(Local, Local)>,
)
    requires
        moves_then(before, middle, pairs, 0),
    ensures
        moves_then(before, pushed(middle, statement), pairs, 1),
        pushed(middle, statement).last().last() == statement,
{
    let after = pushed(middle, statement);
    let b = before.last();
    assert(after.drop_last() =~= middle.drop_last());
    assert(after.last() == middle.last().push(statement));
    assert(after.last().take(b.len() as int) =~= middle.last().take(b.len() as int));
    assert(after.last().subrange(b.len() as int, after.last().len() - 1) =~= middle.last().subrange(
        b.len() as int,
        middle.last().len() as int,
    ));
}

proof fn lemma_load_front(
    arena: Seq<Seq<Seq<u32>>>,
    stored: Map<(u32, u32), Expression>,
    region: u32,
    first: Link,
    rest: Seq<Link>,
)
    ensures
        loaded_all(arena, stored, region, seq![first] + rest) == seq![
            crate::luau_data::loaded(arena, stored, region, first),
        ] + loaded_all(arena, crate::luau_data::after_load(arena, stored, region, first), region, rest),
        after_all(arena, stored, region, seq![first] + rest) == after_all(
            arena,
            crate::luau_data::after_load(arena, stored, region, first),
            region,
            rest,
        ),
        all_loadable(arena, stored, region, seq![first] + rest) == (crate::luau_data::loadable(
            arena,
            stored,
            region,
            first,
        ) && all_loadable(arena, crate::luau_data::after_load(arena, stored, region, first), region, rest)),
{
    assert((seq![first] + rest)[0] == first);
    assert((seq![first] + rest).drop_first() =~= rest);
}

/// The Luau emitter for one function.
pub struct Emitter {
    data_handler: DataHandler,
    code_handler: CodeHandler,
    region: u32,
}

impl View for Emitter {
    type V = EmitView;

    closed spec fn view(&self) -> EmitView {
        EmitView {
            arena: self.data_handler.arena(),
            stored: self.data_handler.stored(),
            code: self.code_handler@,
            region: self.region,
        }
    }
}

impl Emitter {
    /// An emitter with no registers, nothing stored and no open scope.
    pub fn new() -> (emitter: Self)
        ensures
            emitter@.arena == Seq::<Seq<Seq<u32>>>::empty(),
            emitter@.stored.dom() == Set::<(u32, u32)>::empty(),
            emitter@.code == Seq::<Seq<Statement>>::empty(),
            emitter@.region == 0,
    {
        Emitter { data_handler: DataHandler::new(), code_handler: CodeHandler::new(), region: 0 }
    }

    /// Starts a function: takes its registers, emits its outer region and
    /// opens the scope of its body.
    pub fn start_function(&mut self, arena: RegisterArena)
        ensures
            final(self)@.arena == arena@,
            final(self)@.stored == old(self)@.stored,
            final(self)@.code == old(self)@.code.push(Seq::empty()),
            final(self)@.region == 0,
    {
        self.data_handler.install(arena);
        self.region = 0;
        self.code_handler.push_scope();
    }

    /// Ends the innermost scope and gives its statements.
    pub fn finish_scope(&mut self) -> (code: Sequence)
        requires
            old(self)@.code.len() > 0,
        ensures
            code.statements@ == old(self)@.code.last(),
            final(self)@ == (EmitView { code: old(self)@.code.drop_last(), ..old(self)@ }),
    {
        self.code_handler.pop_scope()
    }

    /// Moves, all at once, the local of each source into its destination.
    fn emit_transfer(&mut self, destinations: Vec<Local>, sources: &[Link])
        requires
            old(self)@.code.len() > 0,
            destinations@.len() == sources@.len(),
            sources_have_locals(old(self)@.arena, old(self)@.region, sources@),
            distinct_destinations(
                transfer_pairs(old(self)@.arena, old(self)@.region, destinations@, sources@),
            ),
        ensures
            then_moves(
                old(self)@,
                final(self)@,
                transfer_pairs(old(self)@.arena, old(self)@.region, destinations@, sources@),
            ),
    {
        let ghost pairs_spec = transfer_pairs(self@.arena, self@.region, destinations@, sources@);
        let mut pairs: Vec<(Local, Local)> = Vec::new();
        let mut i: usize = 0;
        while i < sources.len()
            invariant
                i <= sources@.len(),
                destinations@.len() == sources@.len(),
                sources_have_locals(self@.arena, self@.region, sources@),
                pairs_spec == transfer_pairs(self@.arena, self@.region, destinations@, sources@),
                pairs@ == pairs_spec.take(i as int),
            decreases sources@.len() - i,
        {
            let local = self.data_handler.local_of(self.region, sources[i]);
            pairs.push((destinations[i], local));
            assert(pairs@ =~= pairs_spec.take(i + 1));
            i += 1;
        }
        assert(pairs@ =~= pairs_spec);
        let ghost start = self.code_handler@;
        self.code_handler.emit_local_moves(pairs);
        proof {
            let a = self.code_handler@.last();
            assert(a.subrange(start.last().len() as int, a.len() as int) =~= a.skip(start.last().len() as int));
            if pairs_spec.len() == 0 {
                assert(a.len() >= start.last().len());
            }
        }
    }

    /// Moves the local of `source` into the local of port `port` of node
    /// `id`, and gives that port.
    fn bridge(&mut self, id: u32, port: u16, source: Link) -> (state: Link)
        requires
            old(self)@.code.len() > 0,
            can_bridge(old(self)@.arena, old(self)@.region, id, port, source),
        ensures
            state == (Link { node: id, port }),
            then_moves(old(self)@, final(self)@, bridge_pairs(old(self)@.arena, old(self)@.region, id, port, source)),
    {
        let state = Link { node: id, port };
        assert(seq![state, source][0] == state && seq![state, source][1] == source);
        let destination = self.data_handler.local_of(self.region, state);
        let mut destinations: Vec<Local> = Vec::new();
        destinations.push(destination);
        let sources = link_list1(source);
        assert(destinations@ =~= seq![local_for(register_of(self@.arena, self@.region, state))]);
        proof {
            assert(sources_have_locals(self@.arena, self@.region, sources@)) by {
                assert(sources@[0] == source);
            }
        }
        self.emit_transfer(destinations, sources.as_slice());
        state
    }

    /// Appends `statement`, which ends a node whose moves and reads are done.
    fn finish_statement(
        &mut self,
        statement: Statement,
        Ghost(before): Ghost<EmitView>,
        Ghost(pairs): Ghost<Seq<(Local, Local)>>,
        Ghost(reads): Ghost<Seq<Link>>,
        Ghost(shape): Ghost<spec_fn(Statement, Seq<Expression>) -> bool>,
    )
        requires
            moves_then(before.code, old(self)@.code, pairs, 0),
            old(self)@.arena == before.arena,
            old(self)@.region == before.region,
            old(self)@.stored == after_all(before.arena, before.stored, before.region, reads),
            shape(statement, loaded_all(before.arena, before.stored, before.region, reads)),
        ensures
            then_statement(before, final(self)@, pairs, reads, shape),
    {
        let ghost middle = self.code_handler@;
        proof {
            lemma_moves_push(before.code, middle, statement, pairs);
        }
        self.code_handler.push_statement(statement);
    }

    /// Hands the value of node `id` on, once its moves and reads are done.
    fn finish_value(
        &mut self,
        id: u32,
        value: Expression,
        Ghost(before): Ghost<EmitView>,
        Ghost(pairs): Ghost<Seq<(Local, Local)>>,
        Ghost(reads): Ghost<Seq<Link>>,
        Ghost(shape): Ghost<spec_fn(Expression, Seq<Expression>) -> bool>,
    )
        requires
            moves_then(before.code, old(self)@.code, pairs, 0),
            old(self)@.arena == before.arena,
            old(self)@.region == before.region,
            old(self)@.stored == after_all(before.arena, before.stored, before.region, reads),
            shape(value, loaded_all(before.arena, before.stored, before.region, reads)),
            can_emit(before.arena, before.region, id),
        ensures
            then_value(before, final(self)@, id, pairs, reads, shape),
    {
        let ghost middle = self.code_handler@;
        proof {
            lemma_moves_push(before.code, middle, Statement::Assign {
                destination: local_for(register_of(before.arena, before.region, Link { node: id, port: 0 })),
                source: value,
            }, pairs);
        }
        emit_or_defer(&mut self.data_handler, &mut self.code_handler, self.region, id, value);
    }

    /// A node that works on the reference `reference` through its state
    /// port `port` and ends in a call of `name` on that port and `rest`.
    fn bridged_call(&mut self, id: u32, port: u16, reference: Link, name: &'static str, rest: &[Link])
        requires
            old(self)@.code.len() > 0,
            can_bridge(old(self)@.arena, old(self)@.region, id, port, reference),
            all_loadable(old(self)@.arena, old(self)@.stored, old(self)@.region, seq![port_link(id, port)] + rest@),
        ensures
            then_statement(
                old(self)@,
                final(self)@,
                bridge_pairs(old(self)@.arena, old(self)@.region, id, port, reference),
                seq![port_link(id, port)] + rest@,
                effect_shape(name@),
            ),
    {
        let ghost before = self@;
        let state = self.bridge(id, port, reference);
        let mut links: Vec<Link> = Vec::new();
        links.push(state);
        let mut i: usize = 0;
        while i < rest.len()
            invariant
                i <= rest@.len(),
                links@ == seq![port_link(id, port)] + rest@.take(i as int),
            decreases rest@.len() - i,
        {
            links.push(rest[i]);
            assert(links@ =~= seq![port_link(id, port)] + rest@.take(i + 1));
            i += 1;
        }
        assert(links@ =~= seq![port_link(id, port)] + rest@);
        let value = self.data_handler.build_apply(self.region, name, links.as_slice());
        let ghost reads = seq![port_link(id, port)] + rest@;
        self.finish_statement(
            Statement::Call { results: Vec::new(), call: value },
            Ghost(before),
            Ghost(bridge_pairs(before.arena, before.region, id, port, reference)),
            Ghost(reads),
            Ghost(effect_shape(name@)),
        );
    }

    /// A node that works on the reference `reference` through its state
    /// port `port` and whose value is a call of `name` on that port and `rest`.
    fn bridged_value(&mut self, id: u32, port: u16, reference: Link, name: &'static str, rest: &[Link])
        requires
            old(self)@.code.len() > 0,
            can_bridge(old(self)@.arena, old(self)@.region, id, port, reference),
            all_loadable(old(self)@.arena, old(self)@.stored, old(self)@.region, seq![port_link(id, port)] + rest@),
            can_emit(old(self)@.arena, old(self)@.region, id),
        ensures
            then_value(
                old(self)@,
                final(self)@,
                id,
                bridge_pairs(old(self)@.arena, old(self)@.region, id, port, reference),
                seq![port_link(id, port)] + rest@,
                apply_shape(name@),
            ),
    {
        let ghost before = self@;
        let state = self.bridge(id, port, reference);
        let mut links: Vec<Link> = Vec::new();
        links.push(state);
        let mut i: usize = 0;
        while i < rest.len()
            invariant
                i <= rest@.len(),
                links@ == seq![port_link(id, port)] + rest@.take(i as int),
            decreases rest@.len() - i,
        {
            links.push(rest[i]);
            assert(links@ =~= seq![port_link(id, port)] + rest@.take(i + 1));
            i += 1;
        }
        assert(links@ =~= seq![port_link(id, port)] + rest@);
        let value = self.data_handler.build_apply(self.region, name, links.as_slice());
        let ghost reads = seq![port_link(id, port)] + rest@;
        self.finish_value(
            id,
            value,
            Ghost(before),
            Ghost(bridge_pairs(before.arena, before.region, id, port, reference)),
            Ghost(reads),
            Ghost(apply_shape(name@)),
        );
    }

    /// A value node: its expression is built and handed on.
    fn handle_value(&mut self, id: u32, value: &LuauValue)
        requires
            old(self)@.code.len() > 0,
            all_loadable(old(self)@.arena, old(self)@.stored, old(self)@.region, value_reads(*value)),
            can_emit(old(self)@.arena, old(self)@.region, id),
        ensures
            then_value(old(self)@, final(self)@, id, Seq::empty(), value_reads(*value), value_shape(*value)),
    {
        let ghost before = self@;
        proof {
            lemma_moves_start(before.code);
        }
        let expression = crate::luau_emit::expression_of(&mut self.data_handler, self.region, value);
        self.finish_value(
            id,
            expression,
            Ghost(before),
            Ghost(Seq::empty()),
            Ghost(value_reads(*value)),
            Ghost(value_shape(*value)),
        );
    }

    /// An identity or a fence: each output takes its source, all at once.
    fn handle_identity(&mut self, id: u32, sources: &Vec<Link>)
        requires
            old(self)@.code.len() > 0,
            identity_ok(old(self)@.arena, old(self)@.region, id, sources@),
        ensures
            then_moves(
                old(self)@,
                final(self)@,
                transfer_pairs(
                    old(self)@.arena,
                    old(self)@.region,
                    port_locals_of(old(self)@.arena, old(self)@.region, id, sources@.len()),
                    sources@,
                ),
            ),
    {
        let count = sources.len() as u16;
        let destinations = self.data_handler.port_locals(self.region, id, count);
        assert(destinations@ =~= port_locals_of(self@.arena, self@.region, id, sources@.len()));
        self.emit_transfer(destinations, sources.as_slice());
    }

    /// The end of a repetition's body: the body scope becomes a loop whose
    /// rotation moves `sources` into the outputs of the argument node.
    fn handle_repeat_results(&mut self, condition: Link, sources: &Vec<Link>, arguments: u32)
        requires
            old(self)@.code.len() > 1,
            all_loadable(old(self)@.arena, old(self)@.stored, old(self)@.region, seq![condition]),
            identity_ok(old(self)@.arena, old(self)@.region, arguments, sources@),
        ensures
            repeat_closed(
                old(self)@,
                final(self)@,
                condition,
                transfer_pairs(
                    old(self)@.arena,
                    old(self)@.region,
                    port_locals_of(old(self)@.arena, old(self)@.region, arguments, sources@.len()),
                    sources@,
                ),
            ),
    {
        let ghost before = self@;
        let count = sources.len() as u16;
        let slots = self.data_handler.port_locals(self.region, arguments, count);
        assert(slots@ =~= port_locals_of(before.arena, before.region, arguments, sources@.len()));
        proof {
            reveal_with_fuel(all_loadable, 2);
        }
        let tested = self.data_handler.load(self.region, condition);
        self.code_handler.push_scope();
        let ghost opened = self@.code;
        self.emit_transfer(slots, sources.as_slice());
        let ghost moved = self@.code;
        let rotation = self.code_handler.pop_scope();
        proof {
            assert(opened.last() =~= Seq::<Statement>::empty());
            assert(moved.last().subrange(0, moved.last().len() as int) =~= moved.last());
            assert(self@.code =~= before.code);
        }
        self.code_handler.emit_repeat(tested, rotation);
    }

    /// A call of `function` with `arguments`, binding its results to the
    /// locals of its ports.
    fn handle_call(&mut self, id: u32, function: Link, arguments: &Vec<Link>, result_count: u16)
        requires
            old(self)@.code.len() > 0,
            all_loadable(old(self)@.arena, old(self)@.stored, old(self)@.region, seq![function] + arguments@),
            crate::luajit_data::ports_have_locals(old(self)@.arena, old(self)@.region, id, result_count),
        ensures
            then_statement(
                old(self)@,
                final(self)@,
                Seq::empty(),
                seq![function] + arguments@,
                call_shape(port_locals_of(old(self)@.arena, old(self)@.region, id, result_count as nat)),
            ),
    {
        let ghost before = self@;
        proof {
            lemma_moves_start(before.code);
            lemma_load_front(before.arena, before.stored, before.region, function, arguments@);
        }
        let callee = self.data_handler.load(self.region, function);
        let values = self.data_handler.load_all(self.region, arguments.as_slice());
        let results = self.data_handler.port_locals(self.region, id, result_count);
        assert(results@ =~= port_locals_of(before.arena, before.region, id, result_count as nat));
        let call = Expression::Call { function: Box::new(callee), arguments: values };
        proof {
            let read = loaded_all(before.arena, before.stored, before.region, seq![function] + arguments@);
            assert(read.drop_first() =~= values@);
        }
        let ghost reads = seq![function] + arguments@;
        self.finish_statement(
            Statement::Call { results, call },
            Ghost(before),
            Ghost(Seq::empty()),
            Ghost(reads),
            Ghost(call_shape(port_locals_of(before.arena, before.region, id, result_count as nat))),
        );
    }

    /// The export of `value` under `identifier`.
    fn handle_wasm_export(&mut self, identifier: &String, value: Link)
        requires
            old(self)@.code.len() > 0,
            all_loadable(old(self)@.arena, old(self)@.stored, old(self)@.region, seq![value]),
        ensures
            then_statement(old(self)@, final(self)@, Seq::empty(), seq![value], export_shape(*identifier)),
    {
        let ghost before = self@;
        proof {
            lemma_moves_start(before.code);
            reveal_with_fuel(all_loadable, 2);
            reveal_with_fuel(load_all_result, 2);
        }
        let loaded_value = self.data_handler.load(self.region, value);
        let mut arguments: Vec<Expression> = Vec::new();
        arguments.push(Expression::String(identifier.clone()));
        arguments.push(loaded_value);
        proof {
            reveal_strlit("rt_export");
            assert(arguments@ =~= seq![Expression::String(*identifier), loaded_value]);
        }
        let call = Expression::Apply { name: "rt_export", arguments };
        let ghost reads = seq![value];
        self.finish_statement(
            Statement::Call { results: Vec::new(), call },
            Ghost(before),
            Ghost(Seq::empty()),
            Ghost(reads),
            Ghost(export_shape(*identifier)),
        );
    }

    /// A call of the runtime function `name` on `sources`, binding the
    /// results to the first `result_count` ports of node `id`.
    fn handle_plain_call(&mut self, id: u32, name: &'static str, sources: &Vec<Link>, result_count: u16)
        requires
            old(self)@.code.len() > 0,
            all_loadable(old(self)@.arena, old(self)@.stored, old(self)@.region, sources@),
            crate::luajit_data::ports_have_locals(old(self)@.arena, old(self)@.region, id, result_count),
        ensures
            then_statement(
                old(self)@,
                final(self)@,
                Seq::empty(),
                sources@,
                results_shape(name@, port_locals_of(old(self)@.arena, old(self)@.region, id, result_count as nat)),
            ),
    {
        let ghost before = self@;
        proof {
            lemma_moves_start(before.code);
        }
        let results = self.data_handler.port_locals(self.region, id, result_count);
        assert(results@ =~= port_locals_of(before.arena, before.region, id, result_count as nat));
        let call = self.data_handler.build_apply(self.region, name, sources.as_slice());
        self.finish_statement(
            Statement::Call { results, call },
            Ghost(before),
            Ghost(Seq::empty()),
            Ghost(sources@),
            Ghost(results_shape(name@, port_locals_of(before.arena, before.region, id, result_count as nat))),
        );
    }

    /// A write through the reference of state port 0: of a buffer through
    /// the buffer function `name`, or of a table element.
    fn handle_store(&mut self, id: u32, buffer: Option<&'static str>, reference: Link, offset: Link, value: Link)
        requires
            old(self)@.code.len() > 0,
            can_bridge(old(self)@.arena, old(self)@.region, id, 0, reference),
            all_loadable(old(self)@.arena, old(self)@.stored, old(self)@.region, seq![port_link(id, 0), offset, value]),
        ensures
            then_statement(
                old(self)@,
                final(self)@,
                bridge_pairs(old(self)@.arena, old(self)@.region, id, 0, reference),
                seq![port_link(id, 0), offset, value],
                match buffer {
                    Some(name) => buffer_store_shape(name@),
                    None => set_index_shape(),
                },
            ),
    {
        let ghost before = self@;
        let state = self.bridge(id, 0, reference);
        proof {
            reveal_with_fuel(all_loadable, 4);
            reveal_with_fuel(load_all_result, 4);
        }
        match buffer {
            Some(name) => {
                let call = self.data_handler.build_buffer_store(self.region, state, name, offset, value);
                let ghost reads = seq![port_link(id, 0), offset, value];
                self.finish_statement(
                    Statement::Call { results: Vec::new(), call },
                    Ghost(before),
                    Ghost(bridge_pairs(before.arena, before.region, id, 0, reference)),
                    Ghost(reads),
                    Ghost(buffer_store_shape(name@)),
                );
            },
            None => {
                let table = self.data_handler.load(self.region, state);
                let place = self.data_handler.load(self.region, offset);
                let written = self.data_handler.load(self.region, value);
                let ghost reads = seq![port_link(id, 0), offset, value];
                self.finish_statement(
                    Statement::SetIndex { table, offset: place, value: written },
                    Ghost(before),
                    Ghost(bridge_pairs(before.arena, before.region, id, 0, reference)),
                    Ghost(reads),
                    Ghost(set_index_shape()),
                );
            },
        }
    }

    /// The read of a cell through its state port 1.
    fn handle_mutable_get(&mut self, id: u32, source: Link)
        requires
            old(self)@.code.len() > 0,
            can_bridge(old(self)@.arena, old(self)@.region, id, 1, source),
            all_loadable(old(self)@.arena, old(self)@.stored, old(self)@.region, seq![port_link(id, 1)]),
            can_emit(old(self)@.arena, old(self)@.region, id),
        ensures
            then_value(
                old(self)@,
                final(self)@,
                id,
                bridge_pairs(old(self)@.arena, old(self)@.region, id, 1, source),
                seq![port_link(id, 1)],
                cell_get_shape(),
            ),
    {
        let ghost before = self@;
        let state = self.bridge(id, 1, source);
        let value = self.data_handler.build_mutable_get(self.region, state);
        let ghost reads = seq![port_link(id, 1)];
        self.finish_value(
            id,
            value,
            Ghost(before),
            Ghost(bridge_pairs(before.arena, before.region, id, 1, source)),
            Ghost(reads),
            Ghost(cell_get_shape()),
        );
    }

    /// The write of `source` into a cell through its state port 0.
    fn handle_mutable_set(&mut self, id: u32, destination: Link, source: Link)
        requires
            old(self)@.code.len() > 0,
            can_bridge(old(self)@.arena, old(self)@.region, id, 0, destination),
            all_loadable(old(self)@.arena, old(self)@.stored, old(self)@.region, seq![port_link(id, 0), source]),
        ensures
            then_statement(
                old(self)@,
                final(self)@,
                bridge_pairs(old(self)@.arena, old(self)@.region, id, 0, destination),
                seq![port_link(id, 0), source],
                cell_set_shape(),
            ),
    {
        let ghost before = self@;
        let state = self.bridge(id, 0, destination);
        proof {
            reveal_with_fuel(all_loadable, 3);
            reveal_with_fuel(load_all_result, 3);
        }
        let cell = self.data_handler.load(self.region, state);
        let written = self.data_handler.load(self.region, source);
        let ghost reads = seq![port_link(id, 0), source];
        self.finish_statement(
            Statement::SetIndex { table: cell, offset: Expression::I32(1), value: written },
            Ghost(before),
            Ghost(bridge_pairs(before.arena, before.region, id, 0, destination)),
            Ghost(reads),
            Ghost(cell_set_shape()),
        );
    }

    /// The size of a table through its state port 1.
    fn handle_table_size(&mut self, id: u32, source: Link)
        requires
            old(self)@.code.len() > 0,
            can_bridge(old(self)@.arena, old(self)@.region, id, 1, source),
            all_loadable(old(self)@.arena, old(self)@.stored, old(self)@.region, seq![port_link(id, 1)]),
            can_emit(old(self)@.arena, old(self)@.region, id),
        ensures
            then_value(
                old(self)@,
                final(self)@,
                id,
                bridge_pairs(old(self)@.arena, old(self)@.region, id, 1, source),
                seq![port_link(id, 1)],
                table_length_shape(),
            ),
    {
        let ghost before = self@;
        let state = self.bridge(id, 1, source);
        let value = self.data_handler.build_table_size(self.region, state);
        let ghost reads = seq![port_link(id, 1)];
        self.finish_value(
            id,
            value,
            Ghost(before),
            Ghost(bridge_pairs(before.arena, before.region, id, 1, source)),
            Ghost(reads),
            Ghost(table_length_shape()),
        );
    }

    /// A copy between two tables or memories: the references move into the
    /// locals of the state ports, then the runtime function `name` copies.
    fn handle_copy(
        &mut self,
        id: u32,
        name: &'static str,
        destination_reference: Link,
        destination_offset: Link,
        source_reference: Link,
        source_offset: Link,
        size: Link,
    )
        requires
            old(self)@.code.len() > 0,
            can_copy(old(self)@.arena, old(self)@.region, id, destination_reference, source_reference),
            all_loadable(
                old(self)@.arena,
                old(self)@.stored,
                old(self)@.region,
                copy_reads(id, destination_offset, source_offset, size),
            ),
        ensures
            then_statement(
                old(self)@,
                final(self)@,
                copy_pairs(old(self)@.arena, old(self)@.region, id, destination_reference, source_reference),
                copy_reads(id, destination_offset, source_offset, size),
                effect_shape(name@),
            ),
    {
        let ghost before = self@;
        let ghost four = seq![port_link(id, 0), port_link(id, 1), destination_reference, source_reference];
        assert(four[0] == port_link(id, 0) && four[1] == port_link(id, 1));
        assert(four[2] == destination_reference && four[3] == source_reference);
        let destination = Link { node: id, port: 0 };
        let source = Link { node: id, port: 1 };
        let destination_local = self.data_handler.local_of(self.region, destination);
        let source_local = self.data_handler.local_of(self.region, source);
        let mut locals: Vec<Local> = Vec::new();
        locals.push(destination_local);
        locals.push(source_local);
        let references = link_list2(destination_reference, source_reference);
        proof {
            assert(locals@ =~= seq![
                local_for(register_of(before.arena, before.region, port_link(id, 0))),
                local_for(register_of(before.arena, before.region, port_link(id, 1))),
            ]);
            assert(sources_have_locals(before.arena, before.region, references@)) by {
                assert(references@[0] == destination_reference && references@[1] == source_reference);
            }
            let pairs = transfer_pairs(before.arena, before.region, locals@, references@);
            assert(pairs[0].0 != pairs[1].0);
        }
        self.emit_transfer(locals, references.as_slice());
        let mut links: Vec<Link> = Vec::new();
        links.push(destination);
        links.push(destination_offset);
        links.push(source);
        links.push(source_offset);
        links.push(size);
        assert(links@ =~= copy_reads(id, destination_offset, source_offset, size));
        let call = self.data_handler.build_apply(self.region, name, links.as_slice());
        self.finish_statement(
            Statement::Call { results: Vec::new(), call },
            Ghost(before),
            Ghost(copy_pairs(before.arena, before.region, id, destination_reference, source_reference)),
            Ghost(copy_reads(id, destination_offset, source_offset, size)),
            Ghost(effect_shape(name@)),
        );
    }

    /// Emits node `id` of the region `nodes` into the innermost open scope.
    pub fn handle_node(&mut self, nodes: &[EmitNode], id: u32)
        requires
            (id as int) < nodes@.len(),
            emittable(old(self)@, nodes@[id as int], id),
        ensures
            handled(old(self)@, nodes@[id as int], id, final(self)@),
    {
        let ghost before = self@;
        let node = &nodes[id as usize];
        match node {
            EmitNode::Value(value) => self.handle_value(id, value),
            EmitNode::Boundary => {},
            EmitNode::RepeatResults { condition, sources, arguments } =>
                self.handle_repeat_results(*condition, sources, *arguments),
            EmitNode::Identity { sources } => self.handle_identity(id, sources),
            EmitNode::Fence { sources } => self.handle_identity(id, sources),
            EmitNode::Apply { function, arguments, result_count } =>
                self.handle_call(id, *function, arguments, *result_count),
            EmitNode::WasmExport { identifier, value } => self.handle_wasm_export(identifier, *value),
            EmitNode::TuringTell { character } => {
                let sources = link_list1(*character);
                proof {
                    lemma_moves_start(before.code);
                }
                let call = self.data_handler.build_apply(self.region, "rt_turing_tell", sources.as_slice());
                let ghost reads = seq![*character];
                self.finish_statement(
                    Statement::Call { results: Vec::new(), call },
                    Ghost(before),
                    Ghost(Seq::empty()),
                    Ghost(reads),
                    Ghost(effect_shape("rt_turing_tell"@)),
                );
            },
            EmitNode::BufferStore { name, reference, offset, value } =>
                self.handle_store(id, Some(*name), *reference, *offset, *value),
            EmitNode::TableStore { reference, offset, value } =>
                self.handle_store(id, None, *reference, *offset, *value),
            EmitNode::FromBitsI64 { source } => {
                let sources = link_list1(*source);
                if self.data_handler.is_deferred(self.region, id) {
                    proof {
                        lemma_moves_start(before.code);
                    }
                    let value = self.data_handler.build_apply(self.region, "from_bits_i64", sources.as_slice());
                    let ghost reads = seq![*source];
                    self.finish_value(
                        id,
                        value,
                        Ghost(before),
                        Ghost(Seq::empty()),
                        Ghost(reads),
                        Ghost(apply_shape("from_bits_i64"@)),
                    );
                } else {
                    self.handle_plain_call(id, "from_bits_i64", &sources, 2);
                }
            },
            EmitNode::MutableGet { source } => self.handle_mutable_get(id, *source),
            EmitNode::MutableSet { destination, source } => self.handle_mutable_set(id, *destination, *source),
            EmitNode::TableGet { reference, offset } => {
                let rest = link_list1(*offset);
                assert(seq![port_link(id, 1)] + rest@ =~= seq![port_link(id, 1), *offset]);
                self.bridged_value(id, 1, *reference, "rt_table_get", rest.as_slice());
            },
            EmitNode::TableSet { reference, offset, source } => {
                let rest = link_list2(*offset, *source);
                assert(seq![port_link(id, 0)] + rest@ =~= seq![port_link(id, 0), *offset, *source]);
                self.bridged_call(id, 0, *reference, "rt_table_set", rest.as_slice());
            },
            EmitNode::TableSize { source } => self.handle_table_size(id, *source),
            EmitNode::TableGrow { destination, initializer, size } => {
                let rest = link_list2(*initializer, *size);
                assert(seq![port_link(id, 1)] + rest@ =~= seq![port_link(id, 1), *initializer, *size]);
                self.bridged_value(id, 1, *destination, "rt_table_grow", rest.as_slice());
            },
            EmitNode::TableFill { reference, offset, source, size } => {
                let rest = link_list3(*offset, *source, *size);
                assert(seq![port_link(id, 0)] + rest@ =~= seq![port_link(id, 0), *offset, *source, *size]);
                self.bridged_call(id, 0, *reference, "rt_table_fill", rest.as_slice());
            },
            EmitNode::TableCopy { destination_reference, destination_offset, source_reference, source_offset, size } =>
                self.handle_copy(
                id,
                "rt_table_copy",
                *destination_reference,
                *destination_offset,
                *source_reference,
                *source_offset,
                *size,
            ),
            EmitNode::TableDrop { source } => {
                let rest: Vec<Link> = Vec::new();
                assert(seq![port_link(id, 0)] + rest@ =~= seq![port_link(id, 0)]);
                self.bridged_call(id, 0, *source, "rt_table_drop", rest.as_slice());
            },
            EmitNode::MemoryLoad { reference, offset, kind } => {
                let rest = link_list1(*offset);
                assert(seq![port_link(id, 1)] + rest@ =~= seq![port_link(id, 1), *offset]);
                self.bridged_value(id, 1, *reference, memory_load_name(*kind), rest.as_slice());
            },
            EmitNode::MemoryStore { reference, offset, source, kind } => {
                let rest = link_list2(*offset, *source);
                assert(seq![port_link(id, 0)] + rest@ =~= seq![port_link(id, 0), *offset, *source]);
                self.bridged_call(id, 0, *reference, memory_store_name(*kind), rest.as_slice());
            },
            EmitNode::MemorySize { source } => {
                let rest: Vec<Link> = Vec::new();
                assert(seq![port_link(id, 1)] + rest@ =~= seq![port_link(id, 1)]);
                self.bridged_value(id, 1, *source, "rt_memory_size", rest.as_slice());
            },
            EmitNode::MemoryGrow { destination, size } => {
                let rest = link_list1(*size);
                assert(seq![port_link(id, 1)] + rest@ =~= seq![port_link(id, 1), *size]);
                self.bridged_value(id, 1, *destination, "rt_memory_grow", rest.as_slice());
            },
            EmitNode::MemoryFill { reference, offset, byte, size } => {
                let rest = link_list3(*offset, *byte, *size);
                assert(seq![port_link(id, 0)] + rest@ =~= seq![port_link(id, 0), *offset, *byte, *size]);
                self.bridged_call(id, 0, *reference, "rt_memory_fill", rest.as_slice());
            },
            EmitNode::MemoryCopy { destination_reference, destination_offset, source_reference, source_offset, size } =>
                self.handle_copy(
                id,
                "rt_memory_copy",
                *destination_reference,
                *destination_offset,
                *source_reference,
                *source_offset,
                *size,
            ),
            EmitNode::MemoryDrop { source } => {
                let rest: Vec<Link> = Vec::new();
                assert(seq![port_link(id, 0)] + rest@ =~= seq![port_link(id, 0)]);
                self.bridged_call(id, 0, *source, "rt_memory_drop", rest.as_slice());
            },
        }
    }

    /// Emits the nodes of a region in order.
    pub fn handle_nodes(&mut self, nodes: &[EmitNode])
        requires
            nodes@.len() <= u32::MAX,
            emits_from(old(self)@, nodes@, 0),
        ensures
            emitted_from(old(self)@, nodes@, 0, final(self)@),
    {
        let ghost start = self@;
        let mut i: usize = 0;
        while i < nodes.len()
            invariant
                i <= nodes@.len(),
                nodes@.len() <= u32::MAX,
                emits_from(self@, nodes@, i as int),
                forall|last: EmitView| #[trigger] emitted_from(self@, nodes@, i as int, last) ==> emitted_from(start, nodes@, 0, last),
            decreases nodes@.len() - i,
        {
            let ghost current = self@;
            self.handle_node(nodes, i as u32);
            proof {
                assert(handled(current, nodes@[i as int], i as u32, self@));
                assert forall|last: EmitView| #[trigger] emitted_from(self@, nodes@, i + 1, last) implies emitted_from(start, nodes@, 0, last) by {
                    assert(emitted_from(current, nodes@, i as int, last));
                }
            }
            i += 1;
        }
        assert(emitted_from(self@, nodes@, i as int, self@));
    }

    /// Emits a function whose registers the allocator gave as `arena`, with
    /// register use peaking at `peak`: its outer region `nodes` in a scope of
    /// its own, then what it gives back, read from `results`.
    pub fn emit_function(
        &mut self,
        nodes: &[EmitNode],
        results: &[Link],
        argument_count: u16,
        arena: RegisterArena,
        peak: u32,
    ) -> (function: FunctionTree)
        requires
            spill_of(peak) <= 16384,
            function_emittable(function_start(old(self)@, arena@), nodes@, results@),
        ensures
            function.arguments@ == names_between(0, argument_count as int),
            function.locals@ == names_between(
                argument_count as int,
                if peak < PHYSICAL_REGISTERS { peak as int } else { PHYSICAL_REGISTERS as int },
            ),
            size_classes().contains(function.stack),
            function.stack >= spill_of(peak),
            forall|i: int|
                0 <= i < size_classes().len() && size_classes()[i] >= spill_of(peak) ==> function.stack
                    <= size_classes()[i],
            exists|last: EmitView|
                #[trigger] emitted_from(function_start(old(self)@, arena@), nodes@, 0, last) && function.code.statements@
                    == last.code.last() && function.returned@ == loaded_all(last.arena, last.stored, 0, results@)
                    && final(self)@ == (EmitView {
                    code: last.code.drop_last(),
                    stored: after_all(last.arena, last.stored, 0, results@),
                    ..last
                }),
    {
        let ghost start = function_start(self@, arena@);
        self.start_function(arena);
        assert(self@ == start);
        self.handle_nodes(nodes);
        let ghost last = self@;
        proof {
            assert(emitted_from(start, nodes@, 0, last));
            assert(all_loadable(last.arena, last.stored, last.region, results@));
            lemma_emitted_keeps(start, nodes@, 0, last);
        }
        let arguments = collect_argument_names(argument_count);
        let locals = fast_locals_for(peak, argument_count);
        let stack = stack_size_class_for(peak);
        let code = self.code_handler.pop_scope();
        let returned = self.data_handler.load_all(self.region, results);
        FunctionTree { arguments, locals, stack, code, returned }
    }
}

} // verus!
