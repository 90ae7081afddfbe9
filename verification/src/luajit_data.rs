//! The data side of the LuaJIT emitter: the expressions that read the
//! outputs of a function's nodes.
//!
//! Every output port has a register from the register allocator. A port in
//! a register is read as the local that holds it; a port marked
//! [`DEFERRED`] has no register, and its expression is kept aside until its
//! one reader takes it, inlining it there.

use vstd::prelude::*;

use crate::ir::{
    ExtendType, IntegerBinaryOperator, IntegerCompareOperator, IntegerType, IntegerUnaryOperator,
    Link, LoadType, NumberBinaryOperator, NumberCompareOperator, NumberType, NumberUnaryOperator,
};
use crate::luajit::{register_to_local, Local, Name};
use crate::policy::PHYSICAL_REGISTERS;

verus! {

/// The register of a port that is inlined into its reader instead.
pub const DEFERRED: u32 = 0xFFFF_FFFF;

/// The registers the allocator gave a function's ports: by region, then by
/// node, then by output port.
pub struct RegisterArena {
    regions: Vec<Vec<Vec<u32>>>,
}

impl View for RegisterArena {
    type V = Seq<Seq<Seq<u32>>>;

    closed spec fn view(&self) -> Seq<Seq<Seq<u32>>> {
        self.regions@.map_values(|r: Vec<Vec<u32>>| r@.map_values(|n: Vec<u32>| n@))
    }
}

/// Whether `link` names a port of region `region` of `arena`.
pub open spec fn has_port(arena: Seq<Seq<Seq<u32>>>, region: u32, link: Link) -> bool {
    &&& region < arena.len()
    &&& link.node < arena[region as int].len()
    &&& link.port < arena[region as int][link.node as int].len()
}

/// The register of `link` in region `region`.
pub open spec fn register_of(arena: Seq<Seq<Seq<u32>>>, region: u32, link: Link) -> u32 {
    arena[region as int][link.node as int][link.port as int]
}

/// The local that holds `register`.
pub open spec fn local_for(register: u32) -> Local {
    if register < PHYSICAL_REGISTERS {
        Local::Fast { name: Name { id: register } }
    } else {
        Local::Slow { offset: (register - PHYSICAL_REGISTERS) as u16 }
    }
}

/// Whether `register` has a local: it lies below the physical registers or
/// among the stack slots after them.
pub open spec fn has_local(register: u32) -> bool {
    register < PHYSICAL_REGISTERS || register - PHYSICAL_REGISTERS <= u16::MAX
}

impl RegisterArena {
    /// An arena with no region.
    pub fn new() -> (arena: Self)
        ensures
            arena@ == Seq::<Seq<Seq<u32>>>::empty(),
    {
        let arena = RegisterArena { regions: Vec::new() };
        assert(arena@ =~= Seq::<Seq<Seq<u32>>>::empty());
        arena
    }

    /// The arena with these registers.
    pub fn from_registers(regions: Vec<Vec<Vec<u32>>>) -> (arena: Self)
        ensures
            arena@ == regions@.map_values(|r: Vec<Vec<u32>>| r@.map_values(|n: Vec<u32>| n@)),
    {
        RegisterArena { regions }
    }

    /// The count of nodes of region `region`.
    pub fn node_count(&self, region: u32) -> (count: usize)
        requires
            region < self@.len(),
        ensures
            count == self@[region as int].len(),
    {
        self.regions[region as usize].len()
    }

    /// The register of `link` in region `region`.
    pub fn register(&self, region: u32, link: Link) -> (register: u32)
        requires
            has_port(self@, region, link),
        ensures
            register == register_of(self@, region, link),
    {
        let nodes = &self.regions[region as usize];
        assert(nodes@.map_values(|n: Vec<u32>| n@) == self@[region as int]);
        let ports = &nodes[link.node as usize];
        assert(ports@ == self@[region as int][link.node as int]);
        ports[link.port as usize]
    }
}

/// A place in a table or a memory: the reference and the offset into it.
pub struct Location {
    pub reference: Expression,
    pub offset: Expression,
}

/// An expression of the LuaJIT tree, as the emitter builds it from the
/// nodes of a function.
pub enum Expression {
    Local(Local),
    Trap,
    Null,
    I32(i32),
    I64(i64),
    /// A 32-bit floating-point constant, by its bits.
    F32 { bits: u32 },
    /// A 64-bit floating-point constant, by its bits.
    F64 { bits: u64 },
    String(String),
    /// A call of the runtime library function named `name`.
    RuntimeCall { name: &'static str, arguments: Vec<Expression> },
    RefIsNull { source: Box<Expression> },
    BooleanToInteger { source: Box<Expression> },
    IntegerUnaryOperation {
        source: Box<Expression>,
        kind: IntegerType,
        operator: IntegerUnaryOperator,
    },
    IntegerBinaryOperation {
        lhs: Box<Expression>,
        rhs: Box<Expression>,
        kind: IntegerType,
        operator: IntegerBinaryOperator,
    },
    IntegerCompareOperation {
        lhs: Box<Expression>,
        rhs: Box<Expression>,
        kind: IntegerType,
        operator: IntegerCompareOperator,
    },
    IntegerNarrow { source: Box<Expression> },
    IntegerWiden { source: Box<Expression> },
    IntegerExtend { source: Box<Expression>, kind: ExtendType },
    IntegerConvertToNumber {
        source: Box<Expression>,
        is_signed: bool,
        to: NumberType,
        from: IntegerType,
    },
    IntegerTransmuteToNumber { source: Box<Expression>, from: IntegerType },
    NumberUnaryOperation {
        source: Box<Expression>,
        kind: NumberType,
        operator: NumberUnaryOperator,
    },
    NumberBinaryOperation {
        lhs: Box<Expression>,
        rhs: Box<Expression>,
        kind: NumberType,
        operator: NumberBinaryOperator,
    },
    NumberCompareOperation {
        lhs: Box<Expression>,
        rhs: Box<Expression>,
        kind: NumberType,
        operator: NumberCompareOperator,
    },
    NumberNarrow { source: Box<Expression> },
    NumberWiden { source: Box<Expression> },
    NumberTruncateToInteger {
        source: Box<Expression>,
        is_signed: bool,
        is_saturating: bool,
        to: IntegerType,
        from: NumberType,
    },
    NumberTransmuteToInteger { source: Box<Expression>, from: NumberType },
    GlobalNew { initializer: Box<Expression> },
    GlobalGet { source: Box<Expression> },
    Aggregate { fields: Vec<Expression> },
    Extract { source: Box<Expression>, index: u32 },
    TableNew { initializer: Vec<(Expression, u32)>, minimum: u32, maximum: u32 },
    TableGet { source: Box<Location> },
    TableSize { source: Box<Expression> },
    TableGrow { destination: Box<Expression>, initializer: Box<Expression>, size: Box<Expression> },
    MemoryLoad { source: Box<Location>, kind: LoadType },
    MemorySize { source: Box<Expression> },
    MemoryGrow { destination: Box<Expression>, size: Box<Expression> },
}

/// A `hashbrown::HashMap` from deferred nodes, by region and id, to their
/// expressions.
#[verifier::external_body]
pub struct ExpressionStore {
    map: hashbrown::HashMap<(u32, u32), Expression>,
}

/// The entries of an [`ExpressionStore`].
pub uninterp spec fn stored_of(store: ExpressionStore) -> Map<(u32, u32), Expression>;

impl ExpressionStore {
    /// An empty store.
    ///
    /// Calls `hashbrown::HashMap::new`, which creates a map with no entries.
    #[verifier::external_body]
    pub fn new() -> (store: Self)
        ensures
            stored_of(store).dom() == Set::<(u32, u32)>::empty(),
    {
        ExpressionStore { map: hashbrown::HashMap::new() }
    }

    /// Stores `expression` under `key`, replacing what was there.
    ///
    /// Calls `hashbrown::HashMap::insert`, which stores the value under the
    /// key, replacing the value an equal key held before.
    #[verifier::external_body]
    pub fn insert(&mut self, key: (u32, u32), expression: Expression)
        ensures
            stored_of(*final(self)) == stored_of(*old(self)).insert(key, expression),
    {
        self.map.insert(key, expression);
    }

    /// Takes the expression stored under `key`, if any.
    ///
    /// Calls `hashbrown::HashMap::remove`, which removes the key and returns
    /// the value it held, or `None` when it held none.
    #[verifier::external_body]
    pub fn remove(&mut self, key: (u32, u32)) -> (taken: Option<Expression>)
        ensures
            stored_of(*final(self)) == stored_of(*old(self)).remove(key),
            taken == (if stored_of(*old(self)).contains_key(key) {
                Some(stored_of(*old(self))[key])
            } else {
                None
            }),
    {
        self.map.remove(&key)
    }
}

/// Whether `link` of region `region` can be read: it has a register with a
/// local, or it is deferred and its expression is stored.
pub open spec fn loadable(
    arena: Seq<Seq<Seq<u32>>>,
    stored: Map<(u32, u32), Expression>,
    region: u32,
    link: Link,
) -> bool {
    &&& has_port(arena, region, link)
    &&& if register_of(arena, region, link) == DEFERRED {
        stored.contains_key((region, link.node))
    } else {
        has_local(register_of(arena, region, link))
    }
}

/// Reading `link` of region `region`: a deferred port gives the stored
/// expression of its node, which the read takes away; any other gives the
/// local of its register.
pub open spec fn load_result(
    arena: Seq<Seq<Seq<u32>>>,
    stored: Map<(u32, u32), Expression>,
    region: u32,
    link: Link,
) -> (Expression, Map<(u32, u32), Expression>) {
    let register = register_of(arena, region, link);
    if register == DEFERRED {
        (stored[(region, link.node)], stored.remove((region, link.node)))
    } else {
        (Expression::Local(local_for(register)), stored)
    }
}

/// The expression read from `link`.
pub open spec fn loaded(
    arena: Seq<Seq<Seq<u32>>>,
    stored: Map<(u32, u32), Expression>,
    region: u32,
    link: Link,
) -> Expression {
    load_result(arena, stored, region, link).0
}

/// The stored expressions left after reading `link`.
pub open spec fn after_load(
    arena: Seq<Seq<Seq<u32>>>,
    stored: Map<(u32, u32), Expression>,
    region: u32,
    link: Link,
) -> Map<(u32, u32), Expression> {
    load_result(arena, stored, region, link).1
}

/// Whether the links can be read one after the other.
pub open spec fn all_loadable(
    arena: Seq<Seq<Seq<u32>>>,
    stored: Map<(u32, u32), Expression>,
    region: u32,
    links: Seq<Link>,
) -> bool
    decreases links.len(),
{
    links.len() == 0 || (loadable(arena, stored, region, links[0]) && all_loadable(
        arena,
        after_load(arena, stored, region, links[0]),
        region,
        links.drop_first(),
    ))
}

/// Reading the links one after the other: the expressions read, and the
/// stored expressions left.
pub open spec fn load_all_result(
    arena: Seq<Seq<Seq<u32>>>,
    stored: Map<(u32, u32), Expression>,
    region: u32,
    links: Seq<Link>,
) -> (Seq<Expression>, Map<(u32, u32), Expression>)
    decreases links.len(),
{
    if links.len() == 0 {
        (Seq::empty(), stored)
    } else {
        let rest = load_all_result(
            arena,
            after_load(arena, stored, region, links[0]),
            region,
            links.drop_first(),
        );
        (seq![loaded(arena, stored, region, links[0])] + rest.0, rest.1)
    }
}

/// Whether `first` and then `second` can be read.
pub open spec fn pair_loadable(
    arena: Seq<Seq<Seq<u32>>>,
    stored: Map<(u32, u32), Expression>,
    region: u32,
    first: Link,
    second: Link,
) -> bool {
    loadable(arena, stored, region, first) && loadable(
        arena,
        after_load(arena, stored, region, first),
        region,
        second,
    )
}

/// The expression read from `second` after reading `first`.
pub open spec fn second(
    arena: Seq<Seq<Seq<u32>>>,
    stored: Map<(u32, u32), Expression>,
    region: u32,
    first: Link,
    second: Link,
) -> Expression {
    loaded(arena, after_load(arena, stored, region, first), region, second)
}

/// The stored expressions left after reading `first` and then `second`.
pub open spec fn after_pair(
    arena: Seq<Seq<Seq<u32>>>,
    stored: Map<(u32, u32), Expression>,
    region: u32,
    first: Link,
    second: Link,
) -> Map<(u32, u32), Expression> {
    after_load(arena, after_load(arena, stored, region, first), region, second)
}

/// The expressions read from `links`, in order.
pub open spec fn loaded_all(
    arena: Seq<Seq<Seq<u32>>>,
    stored: Map<(u32, u32), Expression>,
    region: u32,
    links: Seq<Link>,
) -> Seq<Expression> {
    load_all_result(arena, stored, region, links).0
}

/// The stored expressions left after reading `links`.
pub open spec fn after_all(
    arena: Seq<Seq<Seq<u32>>>,
    stored: Map<(u32, u32), Expression>,
    region: u32,
    links: Seq<Link>,
) -> Map<(u32, u32), Expression> {
    load_all_result(arena, stored, region, links).1
}

proof fn lemma_load_all_len(
    arena: Seq<Seq<Seq<u32>>>,
    stored: Map<(u32, u32), Expression>,
    region: u32,
    links: Seq<Link>,
)
    ensures
        loaded_all(arena, stored, region, links).len() == links.len(),
    decreases links.len(),
{
    if links.len() > 0 {
        lemma_load_all_len(arena, after_load(arena, stored, region, links[0]), region, links.drop_first());
    }
}

fn build_runtime_call(name: &'static str, arguments: Vec<Expression>) -> (expression: Expression)
    ensures
        expression == (Expression::RuntimeCall { name, arguments }),
{
    Expression::RuntimeCall { name, arguments }
}

/// The call of the runtime library that imports `identifier` from `namespace`.
pub fn build_import(namespace: String, identifier: String) -> (expression: Expression)
    ensures
        expression matches Expression::RuntimeCall { name, arguments } && name@ == "import"@
            && arguments@ == seq![Expression::String(namespace), Expression::String(identifier)],
{
    let mut arguments: Vec<Expression> = Vec::new();
    arguments.push(Expression::String(namespace));
    arguments.push(Expression::String(identifier));
    proof {
        reveal_strlit("import");
        assert(arguments@ =~= seq![Expression::String(namespace), Expression::String(identifier)]);
    }
    build_runtime_call("import", arguments)
}

/// Whether the first `count` ports of node `id` of region `region` have
/// registers with locals.
pub open spec fn ports_have_locals(arena: Seq<Seq<Seq<u32>>>, region: u32, id: u32, count: u16) -> bool {
    forall|port: u16|
        port < count ==> #[trigger] has_port(arena, region, Link { node: id, port }) && has_local(
            register_of(arena, region, Link { node: id, port }),
        )
}

/// The registers of a function and the expressions of its deferred nodes
/// that wait for their reader.
pub struct DataHandler {
    arena: RegisterArena,
    deferred_expressions: ExpressionStore,
}

impl DataHandler {
    /// The registers, by region, node and port.
    pub closed spec fn arena(&self) -> Seq<Seq<Seq<u32>>> {
        self.arena@
    }

    /// The expressions kept for deferred nodes, by region and node.
    pub closed spec fn stored(&self) -> Map<(u32, u32), Expression> {
        stored_of(self.deferred_expressions)
    }

    /// A handler with no registers and nothing stored.
    pub fn new() -> (handler: Self)
        ensures
            handler.arena() == Seq::<Seq<Seq<u32>>>::empty(),
            handler.stored().dom() == Set::<(u32, u32)>::empty(),
    {
        DataHandler { arena: RegisterArena::new(), deferred_expressions: ExpressionStore::new() }
    }

    /// Takes the registers of the next function.
    pub fn install(&mut self, arena: RegisterArena)
        ensures
            final(self).arena() == arena@,
            final(self).stored() == old(self).stored(),
    {
        self.arena = arena;
    }

    /// The count of nodes of region `region`.
    pub fn node_count(&self, region: u32) -> (count: usize)
        requires
            region < self.arena().len(),
        ensures
            count == self.arena()[region as int].len(),
    {
        self.arena.node_count(region)
    }

    /// Whether node `id` of region `region` is inlined into its reader.
    pub fn is_deferred(&self, region: u32, id: u32) -> (deferred: bool)
        requires
            has_port(self.arena(), region, Link { node: id, port: 0 }),
        ensures
            deferred == (register_of(self.arena(), region, Link { node: id, port: 0 }) == DEFERRED),
    {
        self.arena.register(region, Link { node: id, port: 0 }) == DEFERRED
    }

    /// Keeps the expression of deferred node `id` of region `region` for its reader.
    pub fn store(&mut self, region: u32, id: u32, expression: Expression)
        ensures
            final(self).stored() == old(self).stored().insert((region, id), expression),
            final(self).arena() == old(self).arena(),
    {
        self.deferred_expressions.insert((region, id), expression);
    }

    /// The local that holds `link` of region `region`.
    pub fn local_of(&self, region: u32, link: Link) -> (local: Local)
        requires
            has_port(self.arena(), region, link),
            has_local(register_of(self.arena(), region, link)),
        ensures
            local == local_for(register_of(self.arena(), region, link)),
    {
        register_to_local(self.arena.register(region, link))
    }

    /// The locals of the first `count` ports of node `id` of region `region`.
    pub fn port_locals(&self, region: u32, id: u32, count: u16) -> (locals: Vec<Local>)
        requires
            ports_have_locals(self.arena(), region, id, count),
        ensures
            locals@.len() == count,
            forall|port: int|
                0 <= port < count ==> #[trigger] locals@[port] == local_for(
                    register_of(self.arena(), region, Link { node: id, port: port as u16 }),
                ),
    {
        let mut locals: Vec<Local> = Vec::new();
        let mut port: u16 = 0;
        while port < count
            invariant
                port <= count,
                locals@.len() == port,
                ports_have_locals(self.arena(), region, id, count),
                forall|p: int|
                    0 <= p < port ==> #[trigger] locals@[p] == local_for(
                        register_of(self.arena(), region, Link { node: id, port: p as u16 }),
                    ),
            decreases count - port,
        {
            assert(has_port(self.arena(), region, Link { node: id, port }));
            let local = self.local_of(region, Link { node: id, port });
            locals.push(local);
            port += 1;
        }
        locals
    }

    /// Reads `link` of region `region`: the stored expression of a deferred
    /// node, which is taken away, or else the local of its register.
    pub fn load(&mut self, region: u32, link: Link) -> (expression: Expression)
        requires
            loadable(old(self).arena(), old(self).stored(), region, link),
        ensures
            expression == loaded(old(self).arena(), old(self).stored(), region, link),
            final(self).stored() == after_load(old(self).arena(), old(self).stored(), region, link),
            final(self).arena() == old(self).arena(),
    {
        let register = self.arena.register(region, link);
        if register == DEFERRED {
            self.deferred_expressions.remove((region, link.node)).unwrap()
        } else {
            Expression::Local(register_to_local(register))
        }
    }

    /// Reads the links one after the other.
    pub fn load_all(&mut self, region: u32, sources: &[Link]) -> (expressions: Vec<Expression>)
        requires
            all_loadable(old(self).arena(), old(self).stored(), region, sources@),
        ensures
            expressions@ == loaded_all(old(self).arena(), old(self).stored(), region, sources@),
            final(self).stored() == after_all(old(self).arena(), old(self).stored(), region, sources@),
            final(self).arena() == old(self).arena(),
    {
        let ghost arena = self.arena();
        let ghost start = self.stored();
        let mut expressions: Vec<Expression> = Vec::new();
        let mut i: usize = 0;
        assert(sources@.skip(0) =~= sources@);
        assert(expressions@ + loaded_all(arena, start, region, sources@) =~= loaded_all(arena, start, region, sources@));
        while i < sources.len()
            invariant
                i <= sources@.len(),
                self.arena() == arena,
                all_loadable(arena, self.stored(), region, sources@.skip(i as int)),
                loaded_all(arena, start, region, sources@) == expressions@ + loaded_all(
                    arena,
                    self.stored(),
                    region,
                    sources@.skip(i as int),
                ),
                after_all(arena, start, region, sources@) == after_all(
                    arena,
                    self.stored(),
                    region,
                    sources@.skip(i as int),
                ),
            decreases sources@.len() - i,
        {
            let ghost rest = sources@.skip(i as int);
            let ghost before = expressions@;
            assert(rest[0] == sources@[i as int]);
            assert(rest.drop_first() =~= sources@.skip(i + 1));
            let expression = self.load(region, sources[i]);
            expressions.push(expression);
            proof {
                let tail = loaded_all(arena, self.stored(), region, sources@.skip(i + 1));
                assert(before + (seq![expression] + tail) =~= expressions@ + tail);
            }
            i += 1;
        }
        assert(sources@.skip(i as int) =~= Seq::<Link>::empty());
        assert(expressions@ + Seq::<Expression>::empty() =~= expressions@);
        expressions
    }

    /// Reads the reference and then the offset of a place.
    pub fn load_location(&mut self, region: u32, reference: Link, offset: Link) -> (location: Location)
        requires
            pair_loadable(old(self).arena(), old(self).stored(), region, reference, offset),
        ensures
            location == (Location {
                reference: loaded(old(self).arena(), old(self).stored(), region, reference),
                offset: second(old(self).arena(), old(self).stored(), region, reference, offset),
            }),
            final(self).stored() == after_pair(old(self).arena(), old(self).stored(), region, reference, offset),
            final(self).arena() == old(self).arena(),
    {
        let reference = self.load(region, reference);
        let offset = self.load(region, offset);
        Location { reference, offset }
    }

    /// Whether the read reference is null, as an integer.
    pub fn build_ref_is_null(&mut self, region: u32, source: Link) -> (expression: Expression)
        requires
            loadable(old(self).arena(), old(self).stored(), region, source),
        ensures
            expression == (Expression::BooleanToInteger {
                source: Box::new(Expression::RefIsNull {
                    source: Box::new(loaded(old(self).arena(), old(self).stored(), region, source)),
                }),
            }),
            final(self).stored() == after_load(old(self).arena(), old(self).stored(), region, source),
            final(self).arena() == old(self).arena(),
    {
        let source = self.load(region, source);
        let test = Expression::RefIsNull { source: Box::new(source) };
        Expression::BooleanToInteger { source: Box::new(test) }
    }

    /// A one-operand integer operation on the read operand.
    pub fn build_integer_unary_operation(&mut self, region: u32, source: Link, kind: IntegerType, operator: IntegerUnaryOperator) -> (expression: Expression)
        requires
            loadable(old(self).arena(), old(self).stored(), region, source),
        ensures
            expression == (Expression::IntegerUnaryOperation {
                source: Box::new(loaded(old(self).arena(), old(self).stored(), region, source)),
                kind,
                operator,
            }),
            final(self).stored() == after_load(old(self).arena(), old(self).stored(), region, source),
            final(self).arena() == old(self).arena(),
    {
        let source = self.load(region, source);
        Expression::IntegerUnaryOperation { source: Box::new(source), kind, operator, }
    }

    /// A two-operand integer operation on the operands read in order.
    pub fn build_integer_binary_operation(
        &mut self,
        region: u32,
        lhs: Link,
        rhs: Link,
        kind: IntegerType,
        operator: IntegerBinaryOperator,
    ) -> (expression: Expression)
        requires
            pair_loadable(old(self).arena(), old(self).stored(), region, lhs, rhs),
        ensures
            expression == (Expression::IntegerBinaryOperation {
                lhs: Box::new(loaded(old(self).arena(), old(self).stored(), region, lhs)),
                rhs: Box::new(second(old(self).arena(), old(self).stored(), region, lhs, rhs)),
                kind,
                operator,
            }),
            final(self).stored() == after_pair(old(self).arena(), old(self).stored(), region, lhs, rhs),
            final(self).arena() == old(self).arena(),
    {
        let lhs = self.load(region, lhs);
        let rhs = self.load(region, rhs);
        Expression::IntegerBinaryOperation { lhs: Box::new(lhs), rhs: Box::new(rhs), kind, operator }
    }

    /// An integer comparison of the operands read in order, as an integer.
    pub fn build_integer_compare_operation(
        &mut self,
        region: u32,
        lhs: Link,
        rhs: Link,
        kind: IntegerType,
        operator: IntegerCompareOperator,
    ) -> (expression: Expression)
        requires
            pair_loadable(old(self).arena(), old(self).stored(), region, lhs, rhs),
        ensures
            expression == (Expression::BooleanToInteger {
                source: Box::new(Expression::IntegerCompareOperation {
                    lhs: Box::new(loaded(old(self).arena(), old(self).stored(), region, lhs)),
                    rhs: Box::new(second(old(self).arena(), old(self).stored(), region, lhs, rhs)),
                    kind,
                    operator,
                }),
            }),
            final(self).stored() == after_pair(old(self).arena(), old(self).stored(), region, lhs, rhs),
            final(self).arena() == old(self).arena(),
    {
        let lhs = self.load(region, lhs);
        let rhs = self.load(region, rhs);
        let compare = Expression::IntegerCompareOperation { lhs: Box::new(lhs), rhs: Box::new(rhs), kind, operator };
        Expression::BooleanToInteger { source: Box::new(compare) }
    }

    /// The read 64-bit integer narrowed to 32 bits.
    pub fn build_integer_narrow(&mut self, region: u32, source: Link) -> (expression: Expression)
        requires
            loadable(old(self).arena(), old(self).stored(), region, source),
        ensures
            expression == (Expression::IntegerNarrow {
                source: Box::new(loaded(old(self).arena(), old(self).stored(), region, source)),
            }),
            final(self).stored() == after_load(old(self).arena(), old(self).stored(), region, source),
            final(self).arena() == old(self).arena(),
    {
        let source = self.load(region, source);
        Expression::IntegerNarrow { source: Box::new(source), }
    }

    /// The read 32-bit integer widened to 64 bits.
    pub fn build_integer_widen(&mut self, region: u32, source: Link) -> (expression: Expression)
        requires
            loadable(old(self).arena(), old(self).stored(), region, source),
        ensures
            expression == (Expression::IntegerWiden {
                source: Box::new(loaded(old(self).arena(), old(self).stored(), region, source)),
            }),
            final(self).stored() == after_load(old(self).arena(), old(self).stored(), region, source),
            final(self).arena() == old(self).arena(),
    {
        let source = self.load(region, source);
        Expression::IntegerWiden { source: Box::new(source), }
    }

    /// The read integer sign-extended.
    pub fn build_integer_sign_extend(&mut self, region: u32, source: Link, kind: ExtendType) -> (expression: Expression)
        requires
            loadable(old(self).arena(), old(self).stored(), region, source),
        ensures
            expression == (Expression::IntegerExtend {
                source: Box::new(loaded(old(self).arena(), old(self).stored(), region, source)),
                kind,
            }),
            final(self).stored() == after_load(old(self).arena(), old(self).stored(), region, source),
            final(self).arena() == old(self).arena(),
    {
        let source = self.load(region, source);
        Expression::IntegerExtend { source: Box::new(source), kind, }
    }

    /// The read integer converted to a floating-point value.
    pub fn build_integer_convert_to_number(&mut self, region: u32, source: Link, is_signed: bool, to: NumberType, from: IntegerType) -> (expression: Expression)
        requires
            loadable(old(self).arena(), old(self).stored(), region, source),
        ensures
            expression == (Expression::IntegerConvertToNumber {
                source: Box::new(loaded(old(self).arena(), old(self).stored(), region, source)),
                is_signed,
                to,
                from,
            }),
            final(self).stored() == after_load(old(self).arena(), old(self).stored(), region, source),
            final(self).arena() == old(self).arena(),
    {
        let source = self.load(region, source);
        Expression::IntegerConvertToNumber { source: Box::new(source), is_signed, to, from, }
    }

    /// The bits of the read integer read as a floating-point value.
    pub fn build_integer_transmute_to_number(&mut self, region: u32, source: Link, from: IntegerType) -> (expression: Expression)
        requires
            loadable(old(self).arena(), old(self).stored(), region, source),
        ensures
            expression == (Expression::IntegerTransmuteToNumber {
                source: Box::new(loaded(old(self).arena(), old(self).stored(), region, source)),
                from,
            }),
            final(self).stored() == after_load(old(self).arena(), old(self).stored(), region, source),
            final(self).arena() == old(self).arena(),
    {
        let source = self.load(region, source);
        Expression::IntegerTransmuteToNumber { source: Box::new(source), from, }
    }

    /// A one-operand floating-point operation on the read operand.
    pub fn build_number_unary_operation(&mut self, region: u32, source: Link, kind: NumberType, operator: NumberUnaryOperator) -> (expression: Expression)
        requires
            loadable(old(self).arena(), old(self).stored(), region, source),
        ensures
            expression == (Expression::NumberUnaryOperation {
                source: Box::new(loaded(old(self).arena(), old(self).stored(), region, source)),
                kind,
                operator,
            }),
            final(self).stored() == after_load(old(self).arena(), old(self).stored(), region, source),
            final(self).arena() == old(self).arena(),
    {
        let source = self.load(region, source);
        Expression::NumberUnaryOperation { source: Box::new(source), kind, operator, }
    }

    /// A two-operand floating-point operation on the operands read in order.
    pub fn build_number_binary_operation(
        &mut self,
        region: u32,
        lhs: Link,
        rhs: Link,
        kind: NumberType,
        operator: NumberBinaryOperator,
    ) -> (expression: Expression)
        requires
            pair_loadable(old(self).arena(), old(self).stored(), region, lhs, rhs),
        ensures
            expression == (Expression::NumberBinaryOperation {
                lhs: Box::new(loaded(old(self).arena(), old(self).stored(), region, lhs)),
                rhs: Box::new(second(old(self).arena(), old(self).stored(), region, lhs, rhs)),
                kind,
                operator,
            }),
            final(self).stored() == after_pair(old(self).arena(), old(self).stored(), region, lhs, rhs),
            final(self).arena() == old(self).arena(),
    {
        let lhs = self.load(region, lhs);
        let rhs = self.load(region, rhs);
        Expression::NumberBinaryOperation { lhs: Box::new(lhs), rhs: Box::new(rhs), kind, operator }
    }

    /// A floating-point comparison of the operands read in order, as an integer.
    pub fn build_number_compare_operation(
        &mut self,
        region: u32,
        lhs: Link,
        rhs: Link,
        kind: NumberType,
        operator: NumberCompareOperator,
    ) -> (expression: Expression)
        requires
            pair_loadable(old(self).arena(), old(self).stored(), region, lhs, rhs),
        ensures
            expression == (Expression::BooleanToInteger {
                source: Box::new(Expression::NumberCompareOperation {
                    lhs: Box::new(loaded(old(self).arena(), old(self).stored(), region, lhs)),
                    rhs: Box::new(second(old(self).arena(), old(self).stored(), region, lhs, rhs)),
                    kind,
                    operator,
                }),
            }),
            final(self).stored() == after_pair(old(self).arena(), old(self).stored(), region, lhs, rhs),
            final(self).arena() == old(self).arena(),
    {
        let lhs = self.load(region, lhs);
        let rhs = self.load(region, rhs);
        let compare = Expression::NumberCompareOperation { lhs: Box::new(lhs), rhs: Box::new(rhs), kind, operator };
        Expression::BooleanToInteger { source: Box::new(compare) }
    }

    /// The read 64-bit floating-point value narrowed to 32 bits.
    pub fn build_number_narrow(&mut self, region: u32, source: Link) -> (expression: Expression)
        requires
            loadable(old(self).arena(), old(self).stored(), region, source),
        ensures
            expression == (Expression::NumberNarrow {
                source: Box::new(loaded(old(self).arena(), old(self).stored(), region, source)),
            }),
            final(self).stored() == after_load(old(self).arena(), old(self).stored(), region, source),
            final(self).arena() == old(self).arena(),
    {
        let source = self.load(region, source);
        Expression::NumberNarrow { source: Box::new(source), }
    }

    /// The read 32-bit floating-point value widened to 64 bits.
    pub fn build_number_widen(&mut self, region: u32, source: Link) -> (expression: Expression)
        requires
            loadable(old(self).arena(), old(self).stored(), region, source),
        ensures
            expression == (Expression::NumberWiden {
                source: Box::new(loaded(old(self).arena(), old(self).stored(), region, source)),
            }),
            final(self).stored() == after_load(old(self).arena(), old(self).stored(), region, source),
            final(self).arena() == old(self).arena(),
    {
        let source = self.load(region, source);
        Expression::NumberWiden { source: Box::new(source), }
    }

    /// The read floating-point value truncated to an integer.
    pub fn build_number_truncate_to_integer(&mut self, region: u32, source: Link, is_signed: bool, is_saturating: bool, to: IntegerType, from: NumberType) -> (expression: Expression)
        requires
            loadable(old(self).arena(), old(self).stored(), region, source),
        ensures
            expression == (Expression::NumberTruncateToInteger {
                source: Box::new(loaded(old(self).arena(), old(self).stored(), region, source)),
                is_signed,
                is_saturating,
                to,
                from,
            }),
            final(self).stored() == after_load(old(self).arena(), old(self).stored(), region, source),
            final(self).arena() == old(self).arena(),
    {
        let source = self.load(region, source);
        Expression::NumberTruncateToInteger { source: Box::new(source), is_signed, is_saturating, to, from, }
    }

    /// The bits of the read floating-point value read as an integer.
    pub fn build_number_transmute_to_integer(&mut self, region: u32, source: Link, from: NumberType) -> (expression: Expression)
        requires
            loadable(old(self).arena(), old(self).stored(), region, source),
        ensures
            expression == (Expression::NumberTransmuteToInteger {
                source: Box::new(loaded(old(self).arena(), old(self).stored(), region, source)),
                from,
            }),
            final(self).stored() == after_load(old(self).arena(), old(self).stored(), region, source),
            final(self).arena() == old(self).arena(),
    {
        let source = self.load(region, source);
        Expression::NumberTransmuteToInteger { source: Box::new(source), from, }
    }

    /// A new global holding the read initial value.
    pub fn build_mutable_new(&mut self, region: u32, initializer: Link) -> (expression: Expression)
        requires
            loadable(old(self).arena(), old(self).stored(), region, initializer),
        ensures
            expression == (Expression::GlobalNew {
                initializer: Box::new(loaded(old(self).arena(), old(self).stored(), region, initializer)),
            }),
            final(self).stored() == after_load(old(self).arena(), old(self).stored(), region, initializer),
            final(self).arena() == old(self).arena(),
    {
        let initializer = self.load(region, initializer);
        Expression::GlobalNew { initializer: Box::new(initializer) }
    }

    /// The value of the read global.
    pub fn build_mutable_get(&mut self, region: u32, source: Link) -> (expression: Expression)
        requires
            loadable(old(self).arena(), old(self).stored(), region, source),
        ensures
            expression == (Expression::GlobalGet {
                source: Box::new(loaded(old(self).arena(), old(self).stored(), region, source)),
            }),
            final(self).stored() == after_load(old(self).arena(), old(self).stored(), region, source),
            final(self).arena() == old(self).arena(),
    {
        let source = self.load(region, source);
        Expression::GlobalGet { source: Box::new(source), }
    }

    /// A record of the fields read in order.
    pub fn build_aggregate(&mut self, region: u32, fields: &[Link]) -> (expression: Expression)
        requires
            all_loadable(old(self).arena(), old(self).stored(), region, fields@),
        ensures
            expression matches Expression::Aggregate { fields: read } && read@ == loaded_all(
                old(self).arena(),
                old(self).stored(),
                region,
                fields@,
            ),
            final(self).stored() == after_all(old(self).arena(), old(self).stored(), region, fields@),
            final(self).arena() == old(self).arena(),
    {
        let fields = self.load_all(region, fields);
        Expression::Aggregate { fields }
    }

    /// Field `index` of the read record.
    pub fn build_extract(&mut self, region: u32, source: Link, index: u32) -> (expression: Expression)
        requires
            loadable(old(self).arena(), old(self).stored(), region, source),
        ensures
            expression == (Expression::Extract {
                source: Box::new(loaded(old(self).arena(), old(self).stored(), region, source)),
                index,
            }),
            final(self).stored() == after_load(old(self).arena(), old(self).stored(), region, source),
            final(self).arena() == old(self).arena(),
    {
        let source = self.load(region, source);
        Expression::Extract { source: Box::new(source), index, }
    }

    /// A new table with the initial values read in order at their offsets.
    pub fn build_table_new(
        &mut self,
        region: u32,
        initializer: &[(Link, u32)],
        minimum: u32,
        maximum: u32,
    ) -> (expression: Expression)
        requires
            all_loadable(old(self).arena(), old(self).stored(), region, initializer@.map_values(|pair: (Link, u32)| pair.0)),
        ensures
            expression matches Expression::TableNew { initializer: read, minimum: low, maximum: high }
                && low == minimum && high == maximum && read@.len() == initializer@.len() && forall|i: int|
                0 <= i < initializer@.len() ==> #[trigger] read@[i] == (
                    loaded_all(old(self).arena(), old(self).stored(), region, initializer@.map_values(|pair: (Link, u32)| pair.0))[i],
                    initializer@[i].1,
                ),
            final(self).stored() == after_all(
                old(self).arena(),
                old(self).stored(),
                region,
                initializer@.map_values(|pair: (Link, u32)| pair.0),
            ),
            final(self).arena() == old(self).arena(),
    {
        let ghost arena = self.arena();
        let ghost start = self.stored();
        let ghost links = initializer@.map_values(|pair: (Link, u32)| pair.0);
        let mut pairs: Vec<(Expression, u32)> = Vec::new();
        let mut i: usize = 0;
        assert(links.skip(0) =~= links);
        while i < initializer.len()
            invariant
                i <= initializer@.len(),
                links == initializer@.map_values(|pair: (Link, u32)| pair.0),
                self.arena() == arena,
                pairs@.len() == i,
                all_loadable(arena, self.stored(), region, links.skip(i as int)),
                forall|j: int|
                    0 <= j < i ==> #[trigger] pairs@[j] == (
                        loaded_all(arena, start, region, links)[j],
                        initializer@[j].1,
                    ),
                loaded_all(arena, start, region, links) == loaded_all(arena, start, region, links).take(i as int)
                    + loaded_all(arena, self.stored(), region, links.skip(i as int)),
                after_all(arena, start, region, links) == after_all(
                    arena,
                    self.stored(),
                    region,
                    links.skip(i as int),
                ),
            decreases initializer@.len() - i,
        {
            let ghost rest = links.skip(i as int);
            let ghost all = loaded_all(arena, start, region, links);
            assert(rest[0] == initializer@[i as int].0);
            assert(rest.drop_first() =~= links.skip(i + 1));
            let (link, offset) = initializer[i];
            let ghost old_stored = self.stored();
            let expression = self.load(region, link);
            proof {
                let tail = loaded_all(arena, self.stored(), region, links.skip(i + 1));
                lemma_load_all_len(arena, start, region, links);
                assert(loaded_all(arena, old_stored, region, rest) == seq![expression] + tail);
                assert(all == all.take(i as int) + (seq![expression] + tail));
                assert(all[i as int] == expression);
                assert(all.take(i + 1) =~= all.take(i as int).push(expression));
                assert(all.take(i as int) + (seq![expression] + tail) =~= all.take(i + 1) + tail);
            }
            pairs.push((expression, offset));
            i += 1;
        }
        Expression::TableNew { initializer: pairs, minimum, maximum }
    }

    /// The element of the read table at the read offset.
    pub fn build_table_get(&mut self, region: u32, reference: Link, offset: Link) -> (expression: Expression)
        requires
            pair_loadable(old(self).arena(), old(self).stored(), region, reference, offset),
        ensures
            expression == (Expression::TableGet {
                source: Box::new(Location {
                    reference: loaded(old(self).arena(), old(self).stored(), region, reference),
                    offset: second(old(self).arena(), old(self).stored(), region, reference, offset),
                }),
            }),
            final(self).stored() == after_pair(old(self).arena(), old(self).stored(), region, reference, offset),
            final(self).arena() == old(self).arena(),
    {
        let source = self.load_location(region, reference, offset);
        Expression::TableGet { source: Box::new(source) }
    }

    /// The size of the read table.
    pub fn build_table_size(&mut self, region: u32, source: Link) -> (expression: Expression)
        requires
            loadable(old(self).arena(), old(self).stored(), region, source),
        ensures
            expression == (Expression::TableSize { source: Box::new(loaded(old(self).arena(), old(self).stored(), region, source)) }),
            final(self).stored() == after_load(old(self).arena(), old(self).stored(), region, source),
            final(self).arena() == old(self).arena(),
    {
        let source = self.load(region, source);
        Expression::TableSize { source: Box::new(source) }
    }

    /// Growing the read table by the read size, filling with the read value;
    /// the three are read as destination, initial value, size.
    pub fn build_table_grow(
        &mut self,
        region: u32,
        destination: Link,
        initializer: Link,
        size: Link,
    ) -> (expression: Expression)
        requires
            pair_loadable(old(self).arena(), old(self).stored(), region, destination, initializer),
            loadable(old(self).arena(), after_pair(old(self).arena(), old(self).stored(), region, destination, initializer), region, size),
        ensures
            expression == (Expression::TableGrow {
                destination: Box::new(loaded(old(self).arena(), old(self).stored(), region, destination)),
                initializer: Box::new(second(old(self).arena(), old(self).stored(), region, destination, initializer)),
                size: Box::new(
                    loaded(old(self).arena(), after_pair(old(self).arena(), old(self).stored(), region, destination, initializer), region, size),
                ),
            }),
            final(self).stored() == after_load(
                old(self).arena(),
                after_pair(old(self).arena(), old(self).stored(), region, destination, initializer),
                region,
                size,
            ),
            final(self).arena() == old(self).arena(),
    {
        let destination = self.load(region, destination);
        let initializer = self.load(region, initializer);
        let size = self.load(region, size);
        Expression::TableGrow {
            destination: Box::new(destination),
            initializer: Box::new(initializer),
            size: Box::new(size),
        }
    }

    /// A load of `kind` from the read memory at the read offset.
    pub fn build_memory_load(
        &mut self,
        region: u32,
        reference: Link,
        offset: Link,
        kind: LoadType,
    ) -> (expression: Expression)
        requires
            pair_loadable(old(self).arena(), old(self).stored(), region, reference, offset),
        ensures
            expression == (Expression::MemoryLoad {
                source: Box::new(Location {
                    reference: loaded(old(self).arena(), old(self).stored(), region, reference),
                    offset: second(old(self).arena(), old(self).stored(), region, reference, offset),
                }),
                kind,
            }),
            final(self).stored() == after_pair(old(self).arena(), old(self).stored(), region, reference, offset),
            final(self).arena() == old(self).arena(),
    {
        let source = self.load_location(region, reference, offset);
        Expression::MemoryLoad { source: Box::new(source), kind }
    }

    /// The size of the read memory.
    pub fn build_memory_size(&mut self, region: u32, source: Link) -> (expression: Expression)
        requires
            loadable(old(self).arena(), old(self).stored(), region, source),
        ensures
            expression == (Expression::MemorySize { source: Box::new(loaded(old(self).arena(), old(self).stored(), region, source)) }),
            final(self).stored() == after_load(old(self).arena(), old(self).stored(), region, source),
            final(self).arena() == old(self).arena(),
    {
        let source = self.load(region, source);
        Expression::MemorySize { source: Box::new(source) }
    }

    /// Growing the read memory by the read size, read in that order.
    pub fn build_memory_grow(&mut self, region: u32, destination: Link, size: Link) -> (expression: Expression)
        requires
            pair_loadable(old(self).arena(), old(self).stored(), region, destination, size),
        ensures
            expression == (Expression::MemoryGrow {
                destination: Box::new(loaded(old(self).arena(), old(self).stored(), region, destination)),
                size: Box::new(second(old(self).arena(), old(self).stored(), region, destination, size)),
            }),
            final(self).stored() == after_pair(old(self).arena(), old(self).stored(), region, destination, size),
            final(self).arena() == old(self).arena(),
    {
        let destination = self.load(region, destination);
        let size = self.load(region, size);
        Expression::MemoryGrow { destination: Box::new(destination), size: Box::new(size) }
    }
}

impl Default for DataHandler {
    /// A handler with no registers and nothing stored.
    fn default() -> (handler: Self)
        ensures
            handler.arena() == Seq::<Seq<Seq<u32>>>::empty(),
            handler.stored().dom() == Set::<(u32, u32)>::empty(),
    {
        Self::new()
    }
}

} // verus!
