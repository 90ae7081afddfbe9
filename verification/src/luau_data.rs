//! The data side of the Luau emitter: the expressions that read the
//! outputs of a function's nodes.
//!
//! As in the LuaJIT emitter, a port in a register is read as the local that
//! holds it, and a [`DEFERRED`] port is read as the expression kept aside
//! for it, which the read takes. Luau has no 64-bit integers or typed
//! pointers, so most operations become calls of the runtime library, named
//! as [`crate::runtime_names`] gives.

use vstd::prelude::*;

use crate::ir::{
    ExtendType, IntegerBinaryOperator, IntegerCompareOperator, IntegerType, IntegerUnaryOperator,
    Link, LoadType, NumberBinaryOperator, NumberCompareOperator, NumberType, NumberUnaryOperator,
};
use crate::luajit::{register_to_local, Local};
use crate::luajit_data::{
    has_local, has_port, local_for, ports_have_locals, register_of, RegisterArena, DEFERRED,
};
use crate::runtime_names::{
    conversion_name, integer_binary_name, integer_binary_runtime, integer_compare_name,
    integer_compare_runtime, integer_convert_name, integer_extend_name, integer_extend_runtime,
    integer_of_width, integer_text, integer_transmute_name, integer_unary_name,
    integer_unary_runtime, memory_load_name, memory_load_runtime, number_binary_name,
    number_binary_runtime, number_compare_name, number_compare_runtime, number_of_width,
    number_text, number_transmute_name, number_truncate_name, number_unary_name,
    number_unary_runtime, signed_text,
};

verus! {

/// An expression of the Luau tree, as the emitter builds it from the nodes
/// of a function. A local is written the same way as in the LuaJIT tree.
pub enum Expression {
    Local(Local),
    String(String),
    Trap,
    Null,
    I32(i32),
    I64(i64),
    /// A 32-bit floating-point constant, by its bits.
    F32 { bits: u32 },
    /// A 64-bit floating-point constant, by its bits.
    F64 { bits: u64 },
    /// A call of the function `function` with the arguments in order.
    Call { function: Box<Expression>, arguments: Vec<Expression> },
    /// A call of the function named `name` with the arguments in order.
    Apply { name: &'static str, arguments: Vec<Expression> },
    Infix { operator: &'static str, lhs: Box<Expression>, rhs: Box<Expression> },
    Prefix { operator: &'static str, source: Box<Expression> },
    BooleanToInteger { source: Box<Expression> },
    RefIsNull { source: Box<Expression> },
    GlobalNew { initializer: Box<Expression> },
    GlobalGet { source: Box<Expression> },
    Aggregate { fields: Vec<Expression> },
    Extract { source: Box<Expression>, index: u32 },
    TableNew { initializer: Vec<(Expression, u32)>, minimum: u32, maximum: u32 },
    TableSize { source: Box<Expression> },
    Index { source: Box<Expression>, offset: Box<Expression> },
    BufferLength { source: Box<Expression> },
    VectorX { source: Box<Expression> },
}

/// A `hashbrown::HashMap` from deferred nodes, by region and id, to their
/// Luau expressions.
#[verifier::external_body]
pub struct ExpressionStore {
    map: hashbrown::HashMap<(u32, u32), Expression>,
}

/// The entries of an [`ExpressionStore`].
pub uninterp spec fn stored_of(store: ExpressionStore) -> Map<(u32, u32), Expression>;

impl ExpressionStore {
    /// An empty store.
    ///
    /// Calls `hashbrown::HashMap::new`, which creates a map with no entries.
    #[verifier::external_body]
    pub fn new() -> (store: Self)
        ensures
            stored_of(store).dom() == Set::<(u32, u32)>::empty(),
    {
        ExpressionStore { map: hashbrown::HashMap::new() }
    }

    /// Stores `expression` under `key`, replacing what was there.
    ///
    /// Calls `hashbrown::HashMap::insert`, which stores the value under the
    /// key, replacing the value an equal key held before.
    #[verifier::external_body]
    pub fn insert(&mut self, key: (u32, u32), expression: Expression)
        ensures
            stored_of(*final(self)) == stored_of(*old(self)).insert(key, expression),
    {
        self.map.insert(key, expression);
    }

    /// Takes the expression stored under `key`, if any.
    ///
    /// Calls `hashbrown::HashMap::remove`, which removes the key and returns
    /// the value it held, or `None` when it held none.
    #[verifier::external_body]
    pub fn remove(&mut self, key: (u32, u32)) -> (taken: Option<Expression>)
        ensures
            stored_of(*final(self)) == stored_of(*old(self)).remove(key),
            taken == (if stored_of(*old(self)).contains_key(key) {
                Some(stored_of(*old(self))[key])
            } else {
                None
            }),
    {
        self.map.remove(&key)
    }
}

/// Whether `link` of region `region` can be read: it has a register with a
/// local, or it is deferred and its expression is stored.
pub open spec fn loadable(
    arena: Seq<Seq<Seq<u32>>>,
    stored: Map<(u32, u32), Expression>,
    region: u32,
    link: Link,
) -> bool {
    &&& has_port(arena, region, link)
    &&& if register_of(arena, region, link) == DEFERRED {
        stored.contains_key((region, link.node))
    } else {
        has_local(register_of(arena, region, link))
    }
}

/// Reading `link` of region `region`: a deferred port gives the stored
/// expression of its node, which the read takes away; any other gives the
/// local of its register.
pub open spec fn load_result(
    arena: Seq<Seq<Seq<u32>>>,
    stored: Map<(u32, u32), Expression>,
    region: u32,
    link: Link,
) -> (Expression, Map<(u32, u32), Expression>) {
    let register = register_of(arena, region, link);
    if register == DEFERRED {
        (stored[(region, link.node)], stored.remove((region, link.node)))
    } else {
        (Expression::Local(local_for(register)), stored)
    }
}

/// The expression read from `link`.
pub open spec fn loaded(
    arena: Seq<Seq<Seq<u32>>>,
    stored: Map<(u32, u32), Expression>,
    region: u32,
    link: Link,
) -> Expression {
    load_result(arena, stored, region, link).0
}

/// The stored expressions left after reading `link`.
pub open spec fn after_load(
    arena: Seq<Seq<Seq<u32>>>,
    stored: Map<(u32, u32), Expression>,
    region: u32,
    link: Link,
) -> Map<(u32, u32), Expression> {
    load_result(arena, stored, region, link).1
}

/// Whether the links can be read one after the other.
pub open spec fn all_loadable(
    arena: Seq<Seq<Seq<u32>>>,
    stored: Map<(u32, u32), Expression>,
    region: u32,
    links: Seq<Link>,
) -> bool
    decreases links.len(),
{
    links.len() == 0 || (loadable(arena, stored, region, links[0]) && all_loadable(
        arena,
        after_load(arena, stored, region, links[0]),
        region,
        links.drop_first(),
    ))
}

/// Reading the links one after the other: the expressions read, and the
/// stored expressions left.
pub open spec fn load_all_result(
    arena: Seq<Seq<Seq<u32>>>,
    stored: Map<(u32, u32), Expression>,
    region: u32,
    links: Seq<Link>,
) -> (Seq<Expression>, Map<(u32, u32), Expression>)
    decreases links.len(),
{
    if links.len() == 0 {
        (Seq::empty(), stored)
    } else {
        let rest = load_all_result(
            arena,
            after_load(arena, stored, region, links[0]),
            region,
            links.drop_first(),
        );
        (seq![loaded(arena, stored, region, links[0])] + rest.0, rest.1)
    }
}

/// Whether `first` and then `second` can be read.
pub open spec fn pair_loadable(
    arena: Seq<Seq<Seq<u32>>>,
    stored: Map<(u32, u32), Expression>,
    region: u32,
    first: Link,
    second: Link,
) -> bool {
    loadable(arena, stored, region, first) && loadable(
        arena,
        after_load(arena, stored, region, first),
        region,
        second,
    )
}

/// The expression read from `second` after reading `first`.
pub open spec fn second(
    arena: Seq<Seq<Seq<u32>>>,
    stored: Map<(u32, u32), Expression>,
    region: u32,
    first: Link,
    second: Link,
) -> Expression {
    loaded(arena, after_load(arena, stored, region, first), region, second)
}

/// The stored expressions left after reading `first` and then `second`.
pub open spec fn after_pair(
    arena: Seq<Seq<Seq<u32>>>,
    stored: Map<(u32, u32), Expression>,
    region: u32,
    first: Link,
    second: Link,
) -> Map<(u32, u32), Expression> {
    after_load(arena, after_load(arena, stored, region, first), region, second)
}

/// The expressions read from `links`, in order.
pub open spec fn loaded_all(
    arena: Seq<Seq<Seq<u32>>>,
    stored: Map<(u32, u32), Expression>,
    region: u32,
    links: Seq<Link>,
) -> Seq<Expression> {
    load_all_result(arena, stored, region, links).0
}

/// The stored expressions left after reading `links`.
pub open spec fn after_all(
    arena: Seq<Seq<Seq<u32>>>,
    stored: Map<(u32, u32), Expression>,
    region: u32,
    links: Seq<Link>,
) -> Map<(u32, u32), Expression> {
    load_all_result(arena, stored, region, links).1
}

proof fn lemma_load_all_len(
    arena: Seq<Seq<Seq<u32>>>,
    stored: Map<(u32, u32), Expression>,
    region: u32,
    links: Seq<Link>,
)
    ensures
        loaded_all(arena, stored, region, links).len() == links.len(),
    decreases links.len(),
{
    if links.len() > 0 {
        lemma_load_all_len(arena, after_load(arena, stored, region, links[0]), region, links.drop_first());
    }
}

pub(crate) fn link_list1(a: Link) -> (links: Vec<Link>)
    ensures
        links@ == seq![a],
{
    let mut links: Vec<Link> = Vec::new();
    links.push(a);
    assert(links@ =~= seq![a]);
    links
}

pub(crate) fn link_list2(a: Link, b: Link) -> (links: Vec<Link>)
    ensures
        links@ == seq![a, b],
{
    let mut links: Vec<Link> = Vec::new();
    links.push(a);
    links.push(b);
    assert(links@ =~= seq![a, b]);
    links
}

pub(crate) fn link_list3(a: Link, b: Link, c: Link) -> (links: Vec<Link>)
    ensures
        links@ == seq![a, b, c],
{
    let mut links: Vec<Link> = Vec::new();
    links.push(a);
    links.push(b);
    links.push(c);
    assert(links@ =~= seq![a, b, c]);
    links
}

/// Whether `expression` calls the function named `name` with `arguments`.
pub open spec fn is_apply(expression: Expression, name: Seq<char>, arguments: Seq<Expression>) -> bool {
    expression matches Expression::Apply { name: called, arguments: given } && called@ == name
        && given@ == arguments
}

/// Whether `expression` is the integer of the boolean call of `name` with
/// `arguments`.
pub open spec fn is_boolean_apply(expression: Expression, name: Seq<char>, arguments: Seq<Expression>) -> bool {
    expression matches Expression::BooleanToInteger { source } && is_apply(*source, name, arguments)
}

/// The integer 1 or 0 of a boolean expression.
pub fn wrap_boolean(source: Expression) -> (expression: Expression)
    ensures
        expression == (Expression::BooleanToInteger { source: Box::new(source) }),
{
    Expression::BooleanToInteger { source: Box::new(source) }
}

/// The registers of a function and the expressions of its deferred nodes
/// that wait for their reader.
pub struct DataHandler {
    arena: RegisterArena,
    deferred_expressions: ExpressionStore,
}

impl DataHandler {
    /// The registers, by region, node and port.
    pub closed spec fn arena(&self) -> Seq<Seq<Seq<u32>>> {
        self.arena@
    }

    /// The expressions kept for deferred nodes, by region and node.
    pub closed spec fn stored(&self) -> Map<(u32, u32), Expression> {
        stored_of(self.deferred_expressions)
    }

    /// A handler with no registers and nothing stored.
    pub fn new() -> (handler: Self)
        ensures
            handler.arena() == Seq::<Seq<Seq<u32>>>::empty(),
            handler.stored().dom() == Set::<(u32, u32)>::empty(),
    {
        DataHandler { arena: RegisterArena::new(), deferred_expressions: ExpressionStore::new() }
    }

    /// Takes the registers of the next function.
    pub fn install(&mut self, arena: RegisterArena)
        ensures
            final(self).arena() == arena@,
            final(self).stored() == old(self).stored(),
    {
        self.arena = arena;
    }

    /// The count of nodes of region `region`.
    pub fn node_count(&self, region: u32) -> (count: usize)
        requires
            region < self.arena().len(),
        ensures
            count == self.arena()[region as int].len(),
    {
        self.arena.node_count(region)
    }

    /// Whether node `id` of region `region` is inlined into its reader.
    pub fn is_deferred(&self, region: u32, id: u32) -> (deferred: bool)
        requires
            has_port(self.arena(), region, Link { node: id, port: 0 }),
        ensures
            deferred == (register_of(self.arena(), region, Link { node: id, port: 0 }) == DEFERRED),
    {
        self.arena.register(region, Link { node: id, port: 0 }) == DEFERRED
    }

    /// Keeps the expression of deferred node `id` of region `region` for its reader.
    pub fn store(&mut self, region: u32, id: u32, expression: Expression)
        ensures
            final(self).stored() == old(self).stored().insert((region, id), expression),
            final(self).arena() == old(self).arena(),
    {
        self.deferred_expressions.insert((region, id), expression);
    }

    /// The local that holds `link` of region `region`.
    pub fn local_of(&self, region: u32, link: Link) -> (local: Local)
        requires
            has_port(self.arena(), region, link),
            has_local(register_of(self.arena(), region, link)),
        ensures
            local == local_for(register_of(self.arena(), region, link)),
    {
        register_to_local(self.arena.register(region, link))
    }

    /// The locals of the first `count` ports of node `id` of region `region`.
    pub fn port_locals(&self, region: u32, id: u32, count: u16) -> (locals: Vec<Local>)
        requires
            ports_have_locals(self.arena(), region, id, count),
        ensures
            locals@.len() == count,
            forall|port: int|
                0 <= port < count ==> #[trigger] locals@[port] == local_for(
                    register_of(self.arena(), region, Link { node: id, port: port as u16 }),
                ),
    {
        let mut locals: Vec<Local> = Vec::new();
        let mut port: u16 = 0;
        while port < count
            invariant
                port <= count,
                locals@.len() == port,
                ports_have_locals(self.arena(), region, id, count),
                forall|p: int|
                    0 <= p < port ==> #[trigger] locals@[p] == local_for(
                        register_of(self.arena(), region, Link { node: id, port: p as u16 }),
                    ),
            decreases count - port,
        {
            assert(has_port(self.arena(), region, Link { node: id, port }));
            let local = self.local_of(region, Link { node: id, port });
            locals.push(local);
            port += 1;
        }
        locals
    }

    /// Reads `link` of region `region`: the stored expression of a deferred
    /// node, which is taken away, or else the local of its register.
    pub fn load(&mut self, region: u32, link: Link) -> (expression: Expression)
        requires
            loadable(old(self).arena(), old(self).stored(), region, link),
        ensures
            expression == loaded(old(self).arena(), old(self).stored(), region, link),
            final(self).stored() == after_load(old(self).arena(), old(self).stored(), region, link),
            final(self).arena() == old(self).arena(),
    {
        let register = self.arena.register(region, link);
        if register == DEFERRED {
            self.deferred_expressions.remove((region, link.node)).unwrap()
        } else {
            Expression::Local(register_to_local(register))
        }
    }

    /// Reads the links one after the other.
    pub fn load_all(&mut self, region: u32, sources: &[Link]) -> (expressions: Vec<Expression>)
        requires
            all_loadable(old(self).arena(), old(self).stored(), region, sources@),
        ensures
            expressions@ == loaded_all(old(self).arena(), old(self).stored(), region, sources@),
            final(self).stored() == after_all(old(self).arena(), old(self).stored(), region, sources@),
            final(self).arena() == old(self).arena(),
    {
        let ghost arena = self.arena();
        let ghost start = self.stored();
        let mut expressions: Vec<Expression> = Vec::new();
        let mut i: usize = 0;
        assert(sources@.skip(0) =~= sources@);
        assert(expressions@ + loaded_all(arena, start, region, sources@) =~= loaded_all(arena, start, region, sources@));
        while i < sources.len()
            invariant
                i <= sources@.len(),
                self.arena() == arena,
                all_loadable(arena, self.stored(), region, sources@.skip(i as int)),
                loaded_all(arena, start, region, sources@) == expressions@ + loaded_all(
                    arena,
                    self.stored(),
                    region,
                    sources@.skip(i as int),
                ),
                after_all(arena, start, region, sources@) == after_all(
                    arena,
                    self.stored(),
                    region,
                    sources@.skip(i as int),
                ),
            decreases sources@.len() - i,
        {
            let ghost rest = sources@.skip(i as int);
            let ghost before = expressions@;
            assert(rest[0] == sources@[i as int]);
            assert(rest.drop_first() =~= sources@.skip(i + 1));
            let expression = self.load(region, sources[i]);
            expressions.push(expression);
            proof {
                let tail = loaded_all(arena, self.stored(), region, sources@.skip(i + 1));
                assert(before + (seq![expression] + tail) =~= expressions@ + tail);
            }
            i += 1;
        }
        assert(sources@.skip(i as int) =~= Seq::<Link>::empty());
        assert(expressions@ + Seq::<Expression>::empty() =~= expressions@);
        expressions
    }

    /// A call of `name` with the links read in order.
    pub fn build_apply(&mut self, region: u32, name: &'static str, sources: &[Link]) -> (expression: Expression)
        requires
            all_loadable(old(self).arena(), old(self).stored(), region, sources@),
        ensures
            is_apply(expression, name@, loaded_all(old(self).arena(), old(self).stored(), region, sources@)),
            final(self).stored() == after_all(old(self).arena(), old(self).stored(), region, sources@),
            final(self).arena() == old(self).arena(),
    {
        let arguments = self.load_all(region, sources);
        Expression::Apply { name, arguments }
    }

    /// A store into a buffer through a runtime call of `name`: the buffer
    /// held first in `reference`, then `offset` and `value`, read in order.
    pub fn build_buffer_store(
        &mut self,
        region: u32,
        reference: Link,
        name: &'static str,
        offset: Link,
        value: Link,
    ) -> (expression: Expression)
        requires
            all_loadable(old(self).arena(), old(self).stored(), region, seq![reference, offset, value]),
        ensures
            is_apply(
                expression,
                name@,
                seq![
                    Expression::Extract { source: Box::new(loaded_all(old(self).arena(), old(self).stored(), region, seq![reference, offset, value])[0]), index: 0 },
                    loaded_all(old(self).arena(), old(self).stored(), region, seq![reference, offset, value])[1],
                    loaded_all(old(self).arena(), old(self).stored(), region, seq![reference, offset, value])[2],
                ],
            ),
            final(self).stored() == after_all(old(self).arena(), old(self).stored(), region, seq![reference, offset, value]),
            final(self).arena() == old(self).arena(),
    {
        proof {
            reveal_with_fuel(all_loadable, 4);
            reveal_with_fuel(load_all_result, 4);
        }
        let buffer = self.build_extract(region, reference, 0);
        let offset = self.load(region, offset);
        let value = self.load(region, value);
        let mut arguments: Vec<Expression> = Vec::new();
        arguments.push(buffer);
        arguments.push(offset);
        arguments.push(value);
        assert(arguments@ =~= seq![arguments@[0], arguments@[1], arguments@[2]]);
        Expression::Apply { name, arguments }
    }

    /// A new vector with the read value in its first lane.
    pub fn build_vector_create(&mut self, region: u32, source: Link) -> (expression: Expression)
        requires
            all_loadable(old(self).arena(), old(self).stored(), region, seq![source]),
        ensures
            is_apply(expression, "vector_create"@, seq![loaded_all(old(self).arena(), old(self).stored(), region, seq![source])[0], Expression::I32(0), Expression::I32(0)]),
            final(self).stored() == after_all(old(self).arena(), old(self).stored(), region, seq![source]),
            final(self).arena() == old(self).arena(),
    {
        proof {
            reveal_with_fuel(all_loadable, 2);
            reveal_with_fuel(load_all_result, 2);
        }
        let source = self.load(region, source);
        let mut arguments: Vec<Expression> = Vec::new();
        arguments.push(source);
        arguments.push(Expression::I32(0));
        arguments.push(Expression::I32(0));
        assert(arguments@ =~= seq![arguments@[0], Expression::I32(0), Expression::I32(0)]);
        Expression::Apply { name: "vector_create", arguments }
    }

    /// The length of the read buffer.
    pub fn build_buffer_length(&mut self, region: u32, source: Link) -> (expression: Expression)
        requires
            all_loadable(old(self).arena(), old(self).stored(), region, seq![source]),
        ensures
            expression == (Expression::BufferLength { source: Box::new(loaded_all(old(self).arena(), old(self).stored(), region, seq![source])[0]) }),
            final(self).stored() == after_all(old(self).arena(), old(self).stored(), region, seq![source]),
            final(self).arena() == old(self).arena(),
    {
        proof {
            reveal_with_fuel(all_loadable, 4);
            reveal_with_fuel(load_all_result, 4);
        }
        let source = self.load(region, source);
        Expression::BufferLength { source: Box::new(source) }
    }

    /// The first lane of the read vector.
    pub fn build_vector_x(&mut self, region: u32, source: Link) -> (expression: Expression)
        requires
            all_loadable(old(self).arena(), old(self).stored(), region, seq![source]),
        ensures
            expression == (Expression::VectorX { source: Box::new(loaded_all(old(self).arena(), old(self).stored(), region, seq![source])[0]) }),
            final(self).stored() == after_all(old(self).arena(), old(self).stored(), region, seq![source]),
            final(self).arena() == old(self).arena(),
    {
        proof {
            reveal_with_fuel(all_loadable, 4);
            reveal_with_fuel(load_all_result, 4);
        }
        let source = self.load(region, source);
        Expression::VectorX { source: Box::new(source) }
    }

    /// The infix `operator` between the operands read in order.
    pub fn build_infix(&mut self, region: u32, operator: &'static str, lhs: Link, rhs: Link) -> (expression: Expression)
        requires
            all_loadable(old(self).arena(), old(self).stored(), region, seq![lhs, rhs]),
        ensures
            expression == (Expression::Infix { operator, lhs: Box::new(loaded_all(old(self).arena(), old(self).stored(), region, seq![lhs, rhs])[0]), rhs: Box::new(loaded_all(old(self).arena(), old(self).stored(), region, seq![lhs, rhs])[1]) }),
            final(self).stored() == after_all(old(self).arena(), old(self).stored(), region, seq![lhs, rhs]),
            final(self).arena() == old(self).arena(),
    {
        proof {
            reveal_with_fuel(all_loadable, 4);
            reveal_with_fuel(load_all_result, 4);
        }
        let lhs = self.load(region, lhs);
        let rhs = self.load(region, rhs);
        Expression::Infix { operator, lhs: Box::new(lhs), rhs: Box::new(rhs) }
    }

    /// The prefix `operator` before the read operand.
    pub fn build_prefix(&mut self, region: u32, operator: &'static str, source: Link) -> (expression: Expression)
        requires
            all_loadable(old(self).arena(), old(self).stored(), region, seq![source]),
        ensures
            expression == (Expression::Prefix { operator, source: Box::new(loaded_all(old(self).arena(), old(self).stored(), region, seq![source])[0]) }),
            final(self).stored() == after_all(old(self).arena(), old(self).stored(), region, seq![source]),
            final(self).arena() == old(self).arena(),
    {
        proof {
            reveal_with_fuel(all_loadable, 4);
            reveal_with_fuel(load_all_result, 4);
        }
        let source = self.load(region, source);
        Expression::Prefix { operator, source: Box::new(source) }
    }

    /// The integer 1 or 0 of the read boolean.
    pub fn build_boolean_to_integer(&mut self, region: u32, source: Link) -> (expression: Expression)
        requires
            all_loadable(old(self).arena(), old(self).stored(), region, seq![source]),
        ensures
            expression == (Expression::BooleanToInteger { source: Box::new(loaded_all(old(self).arena(), old(self).stored(), region, seq![source])[0]) }),
            final(self).stored() == after_all(old(self).arena(), old(self).stored(), region, seq![source]),
            final(self).arena() == old(self).arena(),
    {
        proof {
            reveal_with_fuel(all_loadable, 4);
            reveal_with_fuel(load_all_result, 4);
        }
        let source = self.load(region, source);
        wrap_boolean(source)
    }

    /// Whether the read reference is null, as an integer.
    pub fn build_ref_is_null(&mut self, region: u32, source: Link) -> (expression: Expression)
        requires
            all_loadable(old(self).arena(), old(self).stored(), region, seq![source]),
        ensures
            expression == (Expression::BooleanToInteger { source: Box::new(Expression::RefIsNull { source: Box::new(loaded_all(old(self).arena(), old(self).stored(), region, seq![source])[0]) }) }),
            final(self).stored() == after_all(old(self).arena(), old(self).stored(), region, seq![source]),
            final(self).arena() == old(self).arena(),
    {
        proof {
            reveal_with_fuel(all_loadable, 4);
            reveal_with_fuel(load_all_result, 4);
        }
        let source = self.load(region, source);
        wrap_boolean(Expression::RefIsNull { source: Box::new(source) })
    }

    /// The runtime call of a one-operand integer operation.
    pub fn build_integer_unary_operation(&mut self, region: u32, source: Link, kind: IntegerType, operator: IntegerUnaryOperator) -> (expression: Expression)
        requires
            all_loadable(old(self).arena(), old(self).stored(), region, seq![source]),
        ensures
            is_apply(expression, integer_unary_runtime(kind, operator), loaded_all(old(self).arena(), old(self).stored(), region, seq![source])),
            final(self).stored() == after_all(old(self).arena(), old(self).stored(), region, seq![source]),
            final(self).arena() == old(self).arena(),
    {
        let applied = self.build_apply(region, integer_unary_name(kind, operator), link_list1(source).as_slice());
        applied
    }

    /// The runtime call of a two-operand integer operation.
    pub fn build_integer_binary_operation(&mut self, region: u32, lhs: Link, rhs: Link, kind: IntegerType, operator: IntegerBinaryOperator) -> (expression: Expression)
        requires
            all_loadable(old(self).arena(), old(self).stored(), region, seq![lhs, rhs]),
        ensures
            is_apply(expression, integer_binary_runtime(kind, operator), loaded_all(old(self).arena(), old(self).stored(), region, seq![lhs, rhs])),
            final(self).stored() == after_all(old(self).arena(), old(self).stored(), region, seq![lhs, rhs]),
            final(self).arena() == old(self).arena(),
    {
        let applied = self.build_apply(region, integer_binary_name(kind, operator), link_list2(lhs, rhs).as_slice());
        applied
    }

    /// The runtime call of an integer comparison, as an integer.
    pub fn build_integer_compare_operation(&mut self, region: u32, lhs: Link, rhs: Link, kind: IntegerType, operator: IntegerCompareOperator) -> (expression: Expression)
        requires
            all_loadable(old(self).arena(), old(self).stored(), region, seq![lhs, rhs]),
        ensures
            is_boolean_apply(expression, integer_compare_runtime(kind, operator), loaded_all(old(self).arena(), old(self).stored(), region, seq![lhs, rhs])),
            final(self).stored() == after_all(old(self).arena(), old(self).stored(), region, seq![lhs, rhs]),
            final(self).arena() == old(self).arena(),
    {
        let applied = self.build_apply(region, integer_compare_name(kind, operator), link_list2(lhs, rhs).as_slice());
        wrap_boolean(applied)
    }

    /// The runtime call that narrows a 64-bit integer.
    pub fn build_integer_narrow(&mut self, region: u32, source: Link) -> (expression: Expression)
        requires
            all_loadable(old(self).arena(), old(self).stored(), region, seq![source]),
        ensures
            is_apply(expression, "rt_narrow_i64"@, loaded_all(old(self).arena(), old(self).stored(), region, seq![source])),
            final(self).stored() == after_all(old(self).arena(), old(self).stored(), region, seq![source]),
            final(self).arena() == old(self).arena(),
    {
        let applied = self.build_apply(region, "rt_narrow_i64", link_list1(source).as_slice());
        applied
    }

    /// The runtime call that widens a 32-bit integer.
    pub fn build_integer_widen(&mut self, region: u32, source: Link) -> (expression: Expression)
        requires
            all_loadable(old(self).arena(), old(self).stored(), region, seq![source]),
        ensures
            is_apply(expression, "rt_widen_i32"@, loaded_all(old(self).arena(), old(self).stored(), region, seq![source])),
            final(self).stored() == after_all(old(self).arena(), old(self).stored(), region, seq![source]),
            final(self).arena() == old(self).arena(),
    {
        let applied = self.build_apply(region, "rt_widen_i32", link_list1(source).as_slice());
        applied
    }

    /// The runtime call of a sign extension.
    pub fn build_integer_sign_extend(&mut self, region: u32, source: Link, kind: ExtendType) -> (expression: Expression)
        requires
            all_loadable(old(self).arena(), old(self).stored(), region, seq![source]),
        ensures
            is_apply(expression, integer_extend_runtime(kind), loaded_all(old(self).arena(), old(self).stored(), region, seq![source])),
            final(self).stored() == after_all(old(self).arena(), old(self).stored(), region, seq![source]),
            final(self).arena() == old(self).arena(),
    {
        let applied = self.build_apply(region, integer_extend_name(kind), link_list1(source).as_slice());
        applied
    }

    /// The runtime call that converts an integer to a floating-point value.
    pub fn build_integer_convert_to_number(&mut self, region: u32, source: Link, is_signed: bool, to: NumberType, from: IntegerType) -> (expression: Expression)
        requires
            all_loadable(old(self).arena(), old(self).stored(), region, seq![source]),
        ensures
            is_apply(expression, conversion_name("convert"@, signed_text(from, is_signed), number_text(to)), loaded_all(old(self).arena(), old(self).stored(), region, seq![source])),
            final(self).stored() == after_all(old(self).arena(), old(self).stored(), region, seq![source]),
            final(self).arena() == old(self).arena(),
    {
        let applied = self.build_apply(region, integer_convert_name(from, to, is_signed), link_list1(source).as_slice());
        applied
    }

    /// The runtime call that reads an integer's bits as a floating-point value.
    pub fn build_integer_transmute_to_number(&mut self, region: u32, source: Link, from: IntegerType) -> (expression: Expression)
        requires
            all_loadable(old(self).arena(), old(self).stored(), region, seq![source]),
        ensures
            is_apply(expression, conversion_name("transmute"@, integer_text(from), number_text(number_of_width(from))), loaded_all(old(self).arena(), old(self).stored(), region, seq![source])),
            final(self).stored() == after_all(old(self).arena(), old(self).stored(), region, seq![source]),
            final(self).arena() == old(self).arena(),
    {
        let applied = self.build_apply(region, integer_transmute_name(from), link_list1(source).as_slice());
        applied
    }

    /// The runtime call of a one-operand floating-point operation.
    pub fn build_number_unary_operation(&mut self, region: u32, source: Link, kind: NumberType, operator: NumberUnaryOperator) -> (expression: Expression)
        requires
            all_loadable(old(self).arena(), old(self).stored(), region, seq![source]),
        ensures
            is_apply(expression, number_unary_runtime(kind, operator), loaded_all(old(self).arena(), old(self).stored(), region, seq![source])),
            final(self).stored() == after_all(old(self).arena(), old(self).stored(), region, seq![source]),
            final(self).arena() == old(self).arena(),
    {
        let applied = self.build_apply(region, number_unary_name(kind, operator), link_list1(source).as_slice());
        applied
    }

    /// The runtime call of a two-operand floating-point operation.
    pub fn build_number_binary_operation(&mut self, region: u32, lhs: Link, rhs: Link, kind: NumberType, operator: NumberBinaryOperator) -> (expression: Expression)
        requires
            all_loadable(old(self).arena(), old(self).stored(), region, seq![lhs, rhs]),
        ensures
            is_apply(expression, number_binary_runtime(kind, operator), loaded_all(old(self).arena(), old(self).stored(), region, seq![lhs, rhs])),
            final(self).stored() == after_all(old(self).arena(), old(self).stored(), region, seq![lhs, rhs]),
            final(self).arena() == old(self).arena(),
    {
        let applied = self.build_apply(region, number_binary_name(kind, operator), link_list2(lhs, rhs).as_slice());
        applied
    }

    /// The runtime call of a floating-point comparison, as an integer.
    pub fn build_number_compare_operation(&mut self, region: u32, lhs: Link, rhs: Link, kind: NumberType, operator: NumberCompareOperator) -> (expression: Expression)
        requires
            all_loadable(old(self).arena(), old(self).stored(), region, seq![lhs, rhs]),
        ensures
            is_boolean_apply(expression, number_compare_runtime(kind, operator), loaded_all(old(self).arena(), old(self).stored(), region, seq![lhs, rhs])),
            final(self).stored() == after_all(old(self).arena(), old(self).stored(), region, seq![lhs, rhs]),
            final(self).arena() == old(self).arena(),
    {
        let applied = self.build_apply(region, number_compare_name(kind, operator), link_list2(lhs, rhs).as_slice());
        wrap_boolean(applied)
    }

    /// The runtime call that narrows a 64-bit floating-point value.
    pub fn build_number_narrow(&mut self, region: u32, source: Link) -> (expression: Expression)
        requires
            all_loadable(old(self).arena(), old(self).stored(), region, seq![source]),
        ensures
            is_apply(expression, "rt_narrow_f64"@, loaded_all(old(self).arena(), old(self).stored(), region, seq![source])),
            final(self).stored() == after_all(old(self).arena(), old(self).stored(), region, seq![source]),
            final(self).arena() == old(self).arena(),
    {
        let applied = self.build_apply(region, "rt_narrow_f64", link_list1(source).as_slice());
        applied
    }

    /// The runtime call that widens a 32-bit floating-point value.
    pub fn build_number_widen(&mut self, region: u32, source: Link) -> (expression: Expression)
        requires
            all_loadable(old(self).arena(), old(self).stored(), region, seq![source]),
        ensures
            is_apply(expression, "rt_widen_f32"@, loaded_all(old(self).arena(), old(self).stored(), region, seq![source])),
            final(self).stored() == after_all(old(self).arena(), old(self).stored(), region, seq![source]),
            final(self).arena() == old(self).arena(),
    {
        let applied = self.build_apply(region, "rt_widen_f32", link_list1(source).as_slice());
        applied
    }

    /// The runtime call that truncates a floating-point value to an integer.
    pub fn build_number_truncate_to_integer(&mut self, region: u32, source: Link, is_signed: bool, is_saturating: bool, to: IntegerType, from: NumberType) -> (expression: Expression)
        requires
            all_loadable(old(self).arena(), old(self).stored(), region, seq![source]),
        ensures
            is_apply(expression, conversion_name(if is_saturating { "saturate"@ } else { "truncate"@ }, number_text(from), signed_text(to, is_signed)), loaded_all(old(self).arena(), old(self).stored(), region, seq![source])),
            final(self).stored() == after_all(old(self).arena(), old(self).stored(), region, seq![source]),
            final(self).arena() == old(self).arena(),
    {
        let applied = self.build_apply(region, number_truncate_name(from, to, is_signed, is_saturating), link_list1(source).as_slice());
        applied
    }

    /// The runtime call that reads a floating-point value's bits as an integer.
    pub fn build_number_transmute_to_integer(&mut self, region: u32, source: Link, from: NumberType) -> (expression: Expression)
        requires
            all_loadable(old(self).arena(), old(self).stored(), region, seq![source]),
        ensures
            is_apply(expression, conversion_name("transmute"@, number_text(from), integer_text(integer_of_width(from))), loaded_all(old(self).arena(), old(self).stored(), region, seq![source])),
            final(self).stored() == after_all(old(self).arena(), old(self).stored(), region, seq![source]),
            final(self).arena() == old(self).arena(),
    {
        let applied = self.build_apply(region, number_transmute_name(from), link_list1(source).as_slice());
        applied
    }

    /// A new global holding the read initial value.
    pub fn build_mutable_new(&mut self, region: u32, initializer: Link) -> (expression: Expression)
        requires
            all_loadable(old(self).arena(), old(self).stored(), region, seq![initializer]),
        ensures
            expression == (Expression::GlobalNew { initializer: Box::new(loaded_all(old(self).arena(), old(self).stored(), region, seq![initializer])[0]) }),
            final(self).stored() == after_all(old(self).arena(), old(self).stored(), region, seq![initializer]),
            final(self).arena() == old(self).arena(),
    {
        proof {
            reveal_with_fuel(all_loadable, 4);
            reveal_with_fuel(load_all_result, 4);
        }
        let initializer = self.load(region, initializer);
        Expression::GlobalNew { initializer: Box::new(initializer) }
    }

    /// The value of the read global.
    pub fn build_mutable_get(&mut self, region: u32, reference: Link) -> (expression: Expression)
        requires
            all_loadable(old(self).arena(), old(self).stored(), region, seq![reference]),
        ensures
            expression == (Expression::GlobalGet { source: Box::new(loaded_all(old(self).arena(), old(self).stored(), region, seq![reference])[0]) }),
            final(self).stored() == after_all(old(self).arena(), old(self).stored(), region, seq![reference]),
            final(self).arena() == old(self).arena(),
    {
        proof {
            reveal_with_fuel(all_loadable, 4);
            reveal_with_fuel(load_all_result, 4);
        }
        let source = self.load(region, reference);
        Expression::GlobalGet { source: Box::new(source) }
    }

    /// A record of the fields read in order.
    pub fn build_aggregate(&mut self, region: u32, fields: &[Link]) -> (expression: Expression)
        requires
            all_loadable(old(self).arena(), old(self).stored(), region, fields@),
        ensures
            expression matches Expression::Aggregate { fields: read } && read@ == loaded_all(
                old(self).arena(),
                old(self).stored(),
                region,
                fields@,
            ),
            final(self).stored() == after_all(old(self).arena(), old(self).stored(), region, fields@),
            final(self).arena() == old(self).arena(),
    {
        let fields = self.load_all(region, fields);
        Expression::Aggregate { fields }
    }

    /// Field `index` of the read record.
    pub fn build_extract(&mut self, region: u32, source: Link, index: u32) -> (expression: Expression)
        requires
            all_loadable(old(self).arena(), old(self).stored(), region, seq![source]),
        ensures
            expression == (Expression::Extract { source: Box::new(loaded_all(old(self).arena(), old(self).stored(), region, seq![source])[0]), index }),
            final(self).stored() == after_all(old(self).arena(), old(self).stored(), region, seq![source]),
            final(self).arena() == old(self).arena(),
    {
        proof {
            reveal_with_fuel(all_loadable, 4);
            reveal_with_fuel(load_all_result, 4);
        }
        let source = self.load(region, source);
        Expression::Extract { source: Box::new(source), index }
    }

    /// A new table with the initial values read in order at their offsets.
    pub fn build_table_new(
        &mut self,
        region: u32,
        initializer: &[(Link, u32)],
        minimum: u32,
        maximum: u32,
    ) -> (expression: Expression)
        requires
            all_loadable(old(self).arena(), old(self).stored(), region, initializer@.map_values(|pair: (Link, u32)| pair.0)),
        ensures
            expression matches Expression::TableNew { initializer: read, minimum: low, maximum: high }
                && low == minimum && high == maximum && read@.len() == initializer@.len() && forall|i: int|
                0 <= i < initializer@.len() ==> #[trigger] read@[i] == (
                    loaded_all(old(self).arena(), old(self).stored(), region, initializer@.map_values(|pair: (Link, u32)| pair.0))[i],
                    initializer@[i].1,
                ),
            final(self).stored() == after_all(
                old(self).arena(),
                old(self).stored(),
                region,
                initializer@.map_values(|pair: (Link, u32)| pair.0),
            ),
            final(self).arena() == old(self).arena(),
    {
        let ghost arena = self.arena();
        let ghost start = self.stored();
        let ghost links = initializer@.map_values(|pair: (Link, u32)| pair.0);
        let mut pairs: Vec<(Expression, u32)> = Vec::new();
        let mut i: usize = 0;
        assert(links.skip(0) =~= links);
        while i < initializer.len()
            invariant
                i <= initializer@.len(),
                links == initializer@.map_values(|pair: (Link, u32)| pair.0),
                self.arena() == arena,
                pairs@.len() == i,
                all_loadable(arena, self.stored(), region, links.skip(i as int)),
                forall|j: int|
                    0 <= j < i ==> #[trigger] pairs@[j] == (
                        loaded_all(arena, start, region, links)[j],
                        initializer@[j].1,
                    ),
                loaded_all(arena, start, region, links) == loaded_all(arena, start, region, links).take(i as int)
                    + loaded_all(arena, self.stored(), region, links.skip(i as int)),
                after_all(arena, start, region, links) == after_all(
                    arena,
                    self.stored(),
                    region,
                    links.skip(i as int),
                ),
            decreases initializer@.len() - i,
        {
            let ghost rest = links.skip(i as int);
            let ghost all = loaded_all(arena, start, region, links);
            assert(rest[0] == initializer@[i as int].0);
            assert(rest.drop_first() =~= links.skip(i + 1));
            let (link, offset) = initializer[i];
            let ghost old_stored = self.stored();
            let expression = self.load(region, link);
            proof {
                let tail = loaded_all(arena, self.stored(), region, links.skip(i + 1));
                lemma_load_all_len(arena, start, region, links);
                assert(loaded_all(arena, old_stored, region, rest) == seq![expression] + tail);
                assert(all == all.take(i as int) + (seq![expression] + tail));
                assert(all[i as int] == expression);
                assert(all.take(i + 1) =~= all.take(i as int).push(expression));
                assert(all.take(i as int) + (seq![expression] + tail) =~= all.take(i + 1) + tail);
            }
            pairs.push((expression, offset));
            i += 1;
        }
        Expression::TableNew { initializer: pairs, minimum, maximum }
    }

    /// The runtime call that reads a table element.
    pub fn build_table_get(&mut self, region: u32, reference: Link, offset: Link) -> (expression: Expression)
        requires
            all_loadable(old(self).arena(), old(self).stored(), region, seq![reference, offset]),
        ensures
            is_apply(expression, "rt_table_get"@, loaded_all(old(self).arena(), old(self).stored(), region, seq![reference, offset])),
            final(self).stored() == after_all(old(self).arena(), old(self).stored(), region, seq![reference, offset]),
            final(self).arena() == old(self).arena(),
    {
        let applied = self.build_apply(region, "rt_table_get", link_list2(reference, offset).as_slice());
        applied
    }

    /// The length of the read table.
    pub fn build_table_length(&mut self, region: u32, source: Link) -> (expression: Expression)
        requires
            all_loadable(old(self).arena(), old(self).stored(), region, seq![source]),
        ensures
            expression == (Expression::TableSize { source: Box::new(loaded_all(old(self).arena(), old(self).stored(), region, seq![source])[0]) }),
            final(self).stored() == after_all(old(self).arena(), old(self).stored(), region, seq![source]),
            final(self).arena() == old(self).arena(),
    {
        proof {
            reveal_with_fuel(all_loadable, 4);
            reveal_with_fuel(load_all_result, 4);
        }
        let source = self.load(region, source);
        Expression::TableSize { source: Box::new(source) }
    }

    /// The size of the read table: its length.
    pub fn build_table_size(&mut self, region: u32, reference: Link) -> (expression: Expression)
        requires
            all_loadable(old(self).arena(), old(self).stored(), region, seq![reference]),
        ensures
            expression == (Expression::TableSize { source: Box::new(loaded_all(old(self).arena(), old(self).stored(), region, seq![reference])[0]) }),
            final(self).stored() == after_all(old(self).arena(), old(self).stored(), region, seq![reference]),
            final(self).arena() == old(self).arena(),
    {
        proof {
            reveal_with_fuel(all_loadable, 4);
            reveal_with_fuel(load_all_result, 4);
        }
        self.build_table_length(region, reference)
    }

    /// The read table indexed at the read offset.
    pub fn build_index(&mut self, region: u32, source: Link, offset: Link) -> (expression: Expression)
        requires
            all_loadable(old(self).arena(), old(self).stored(), region, seq![source, offset]),
        ensures
            expression == (Expression::Index { source: Box::new(loaded_all(old(self).arena(), old(self).stored(), region, seq![source, offset])[0]), offset: Box::new(loaded_all(old(self).arena(), old(self).stored(), region, seq![source, offset])[1]) }),
            final(self).stored() == after_all(old(self).arena(), old(self).stored(), region, seq![source, offset]),
            final(self).arena() == old(self).arena(),
    {
        proof {
            reveal_with_fuel(all_loadable, 4);
            reveal_with_fuel(load_all_result, 4);
        }
        let source = self.load(region, source);
        let offset = self.load(region, offset);
        Expression::Index { source: Box::new(source), offset: Box::new(offset) }
    }

    /// The runtime call that grows a table.
    pub fn build_table_grow(&mut self, region: u32, reference: Link, initializer: Link, size: Link) -> (expression: Expression)
        requires
            all_loadable(old(self).arena(), old(self).stored(), region, seq![reference, initializer, size]),
        ensures
            is_apply(expression, "rt_table_grow"@, loaded_all(old(self).arena(), old(self).stored(), region, seq![reference, initializer, size])),
            final(self).stored() == after_all(old(self).arena(), old(self).stored(), region, seq![reference, initializer, size]),
            final(self).arena() == old(self).arena(),
    {
        let applied = self.build_apply(region, "rt_table_grow", link_list3(reference, initializer, size).as_slice());
        applied
    }

    /// The runtime call of a memory load of `kind`.
    pub fn build_memory_load(&mut self, region: u32, reference: Link, offset: Link, kind: LoadType) -> (expression: Expression)
        requires
            all_loadable(old(self).arena(), old(self).stored(), region, seq![reference, offset]),
        ensures
            is_apply(expression, memory_load_runtime(kind), loaded_all(old(self).arena(), old(self).stored(), region, seq![reference, offset])),
            final(self).stored() == after_all(old(self).arena(), old(self).stored(), region, seq![reference, offset]),
            final(self).arena() == old(self).arena(),
    {
        let applied = self.build_apply(region, memory_load_name(kind), link_list2(reference, offset).as_slice());
        applied
    }

    /// The runtime call that gives a memory's size.
    pub fn build_memory_size(&mut self, region: u32, reference: Link) -> (expression: Expression)
        requires
            all_loadable(old(self).arena(), old(self).stored(), region, seq![reference]),
        ensures
            is_apply(expression, "rt_memory_size"@, loaded_all(old(self).arena(), old(self).stored(), region, seq![reference])),
            final(self).stored() == after_all(old(self).arena(), old(self).stored(), region, seq![reference]),
            final(self).arena() == old(self).arena(),
    {
        let applied = self.build_apply(region, "rt_memory_size", link_list1(reference).as_slice());
        applied
    }

    /// The runtime call that grows a memory.
    pub fn build_memory_grow(&mut self, region: u32, reference: Link, size: Link) -> (expression: Expression)
        requires
            all_loadable(old(self).arena(), old(self).stored(), region, seq![reference, size]),
        ensures
            is_apply(expression, "rt_memory_grow"@, loaded_all(old(self).arena(), old(self).stored(), region, seq![reference, size])),
            final(self).stored() == after_all(old(self).arena(), old(self).stored(), region, seq![reference, size]),
            final(self).arena() == old(self).arena(),
    {
        let applied = self.build_apply(region, "rt_memory_grow", link_list2(reference, size).as_slice());
        applied
    }

}

impl Default for DataHandler {
    /// A handler with no registers and nothing stored.
    fn default() -> (handler: Self)
        ensures
            handler.arena() == Seq::<Seq<Seq<u32>>>::empty(),
            handler.stored().dom() == Set::<(u32, u32)>::empty(),
    {
        Self::new()
    }
}

} // verus!
