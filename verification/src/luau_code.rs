//! The code side of the Luau emitter: the statements of each open scope,
//! innermost last.

use vstd::prelude::*;

use crate::ir::StoreType;
use crate::luajit::Local;
use crate::luau_data::Expression;
use crate::parallel_moves::{distinct_destinations, performs, sequence_moves};

verus! {

/// A place in a table or a memory: the reference and the offset into it.
pub struct Location {
    pub reference: Expression,
    pub offset: Expression,
}

/// A sequence of statements, in execution order.
pub struct Sequence {
    pub statements: Vec<Statement>,
}

/// A statement of the Luau tree.
#[allow(inconsistent_fields)]
pub enum Statement {
    /// The branch chosen by `condition`.
    Match { branches: Vec<Sequence>, condition: Expression },
    /// `code` runs, and while `condition` is not zero, `rotation` moves the
    /// carried values into place and `code` runs again.
    Repeat { code: Sequence, condition: Expression, rotation: Sequence },
    Assign { destination: Local, source: Expression },
    /// A cyclic swap of locals: each takes the value of the next one, the
    /// last the value of the first.
    SwapAll { locals: Vec<Local> },
    /// A call that binds its results, in port order, to locals.
    Call { results: Vec<Local>, call: Expression },
    /// A table element write: `(table)[offset] = value`.
    SetIndex { table: Expression, offset: Expression, value: Expression },
    /// A call of the runtime library function named `name`.
    RuntimeCall { name: &'static str, arguments: Vec<Expression> },
    GlobalSet { destination: Expression, source: Expression },
    TableSet { destination: Box<Location>, source: Expression },
    TableFill { destination: Box<Location>, source: Expression, size: Expression },
    TableCopy { destination: Box<Location>, source: Box<Location>, size: Expression },
    TableDrop { source: Expression },
    MemoryStore { destination: Box<Location>, source: Expression, kind: StoreType },
    MemoryFill { destination: Box<Location>, byte: Expression, size: Expression },
    MemoryCopy { destination: Box<Location>, source: Box<Location>, size: Expression },
    MemoryDrop { source: Expression },
}

/// The scopes after `statement` is appended to the innermost one.
pub open spec fn pushed(scopes: Seq<Seq<Statement>>, statement: Statement) -> Seq<Seq<Statement>> {
    scopes.update(scopes.len() - 1, scopes.last().push(statement))
}

/// The statements of the open scopes, innermost last.
pub struct CodeHandler {
    scopes: Vec<Vec<Statement>>,
}

impl View for CodeHandler {
    type V = Seq<Seq<Statement>>;

    closed spec fn view(&self) -> Seq<Seq<Statement>> {
        self.scopes@.map_values(|scope: Vec<Statement>| scope@)
    }
}

impl CodeHandler {
    /// A handler with no open scope.
    pub fn new() -> (handler: Self)
        ensures
            handler@ == Seq::<Seq<Statement>>::empty(),
    {
        let handler = CodeHandler { scopes: Vec::new() };
        assert(handler@ =~= Seq::<Seq<Statement>>::empty());
        handler
    }

    /// Closes the innermost scope and gives its statements.
    pub fn pop_scope(&mut self) -> (sequence: Sequence)
        requires
            old(self)@.len() > 0,
        ensures
            sequence.statements@ == old(self)@.last(),
            final(self)@ == old(self)@.drop_last(),
    {
        let statements = self.scopes.pop().unwrap();
        assert(self@ =~= old(self)@.drop_last());
        Sequence { statements }
    }

    /// Opens a new innermost scope.
    pub fn push_scope(&mut self)
        ensures
            final(self)@ == old(self)@.push(Seq::empty()),
    {
        self.scopes.push(Vec::new());
        assert(self@ =~= old(self)@.push(Seq::empty()));
    }

    pub(crate) fn push_statement(&mut self, statement: Statement)
        requires
            old(self)@.len() > 0,
        ensures
            final(self)@ == pushed(old(self)@, statement),
    {
        let mut scope = self.scopes.pop().unwrap();
        scope.push(statement);
        self.scopes.push(scope);
        assert(self@ =~= pushed(old(self)@, statement));
    }

    /// Appends a match on `condition` between the branches.
    pub fn emit_match(&mut self, condition: Expression, branches: Vec<Sequence>)
        requires
            old(self)@.len() > 0,
        ensures
            final(self)@ == pushed(old(self)@, Statement::Match { branches, condition }),
    {
        self.push_statement(Statement::Match { branches, condition });
    }

    /// Closes the innermost scope as the body of a loop on `condition` and
    /// appends that loop to the scope around it.
    pub fn emit_repeat(&mut self, condition: Expression, rotation: Sequence)
        requires
            old(self)@.len() > 1,
        ensures
            final(self)@.len() == old(self)@.len() - 1,
            final(self)@.drop_last() == old(self)@.drop_last().drop_last(),
            final(self)@.last().len() > 0,
            final(self)@.last().drop_last() == old(self)@.drop_last().last(),
            final(self)@.last().last() matches Statement::Repeat { code, condition: tested, rotation: moved }
                && code.statements@ == old(self)@.last() && tested == condition && moved == rotation,
    {
        let code = self.pop_scope();
        self.push_statement(Statement::Repeat { code, condition, rotation });
        assert(self@.drop_last() =~= old(self)@.drop_last().drop_last());
        assert(self@.last().drop_last() =~= old(self)@.drop_last().last());
    }

    /// Appends the assignment of `source` to `destination`, unless `source`
    /// is that very local.
    pub fn emit_assign(&mut self, destination: Local, source: Expression)
        requires
            old(self)@.len() > 0,
        ensures
            (source matches Expression::Local(local) && local == destination) ==> final(self)@ == old(
                self,
            )@,
            !(source matches Expression::Local(local) && local == destination) ==> final(self)@ == pushed(
                old(self)@,
                Statement::Assign { destination, source },
            ),
    {
        if let Expression::Local(local) = &source {
            if *local == destination {
                return;
            }
        }
        self.push_statement(Statement::Assign { destination, source });
    }

    /// Appends statements that move, all at once, each source local into
    /// its destination local.
    pub fn emit_local_moves(&mut self, pairs: Vec<(Local, Local)>)
        requires
            old(self)@.len() > 0,
            distinct_destinations(pairs@),
        ensures
            final(self)@.len() == old(self)@.len(),
            final(self)@.drop_last() == old(self)@.drop_last(),
            final(self)@.last().len() >= old(self)@.last().len(),
            final(self)@.last().take(old(self)@.last().len() as int) == old(self)@.last(),
            performs(final(self)@.last().skip(old(self)@.last().len() as int), pairs@),
            pairs@.len() == 0 ==> final(self)@ == old(self)@,
    {
        let mut statements = sequence_moves(pairs);
        let ghost emitted = statements@;
        let mut scope = self.scopes.pop().unwrap();
        let ghost start = scope@;
        scope.append(&mut statements);
        self.scopes.push(scope);
        proof {
            assert(self@.drop_last() =~= old(self)@.drop_last());
            assert(self@.last() == start + emitted);
            assert((start + emitted).take(start.len() as int) =~= start);
            assert((start + emitted).skip(start.len() as int) =~= emitted);
            if emitted.len() == 0 {
                assert(start + emitted =~= start);
                assert(self@ =~= old(self)@);
            }
        }
    }

    /// Appends `call`, binding its results to `results`.
    pub fn emit_call(&mut self, results: Vec<Local>, call: Expression)
        requires
            old(self)@.len() > 0,
        ensures
            final(self)@ == pushed(old(self)@, Statement::Call { results, call }),
    {
        self.push_statement(Statement::Call { results, call });
    }

    /// Appends the write of `value` at `offset` of `table`.
    pub fn emit_set_index(&mut self, table: Expression, offset: Expression, value: Expression)
        requires
            old(self)@.len() > 0,
        ensures
            final(self)@ == pushed(old(self)@, Statement::SetIndex { table, offset, value }),
    {
        self.push_statement(Statement::SetIndex { table, offset, value });
    }

    /// Appends a call of the runtime library function named `name`.
    pub fn emit_runtime_call(&mut self, name: &'static str, arguments: Vec<Expression>)
        requires
            old(self)@.len() > 0,
        ensures
            final(self)@ == pushed(old(self)@, Statement::RuntimeCall { name, arguments }),
    {
        self.push_statement(Statement::RuntimeCall { name, arguments });
    }

    /// Appends a write of `source` into the global `destination`.
    pub fn emit_mutable_set(&mut self, destination: Expression, source: Expression)
        requires
            old(self)@.len() > 0,
        ensures
            final(self)@ == pushed(old(self)@, Statement::GlobalSet { destination, source }),
    {
        self.push_statement(Statement::GlobalSet { destination, source });
    }

    /// Appends a table element write.
    pub fn emit_table_set(&mut self, destination: Location, source: Expression)
        requires
            old(self)@.len() > 0,
        ensures
            final(self)@ == pushed(
                old(self)@,
                Statement::TableSet { destination: Box::new(destination), source },
            ),
    {
        self.push_statement(Statement::TableSet { destination: Box::new(destination), source });
    }

    /// Appends a fill of `size` table elements with `source`.
    pub fn emit_table_fill(&mut self, destination: Location, source: Expression, size: Expression)
        requires
            old(self)@.len() > 0,
        ensures
            final(self)@ == pushed(
                old(self)@,
                Statement::TableFill { destination: Box::new(destination), source, size },
            ),
    {
        self.push_statement(Statement::TableFill { destination: Box::new(destination), source, size });
    }

    /// Appends a copy of `size` table elements.
    pub fn emit_table_copy(&mut self, destination: Location, source: Location, size: Expression)
        requires
            old(self)@.len() > 0,
        ensures
            final(self)@ == pushed(
                old(self)@,
                Statement::TableCopy {
                    destination: Box::new(destination),
                    source: Box::new(source),
                    size,
                },
            ),
    {
        self.push_statement(
            Statement::TableCopy { destination: Box::new(destination), source: Box::new(source), size },
        );
    }

    /// Appends the drop of a table segment.
    pub fn emit_table_drop(&mut self, source: Expression)
        requires
            old(self)@.len() > 0,
        ensures
            final(self)@ == pushed(old(self)@, Statement::TableDrop { source }),
    {
        self.push_statement(Statement::TableDrop { source });
    }

    /// Appends a memory store of `kind`.
    pub fn emit_memory_store(&mut self, destination: Location, source: Expression, kind: StoreType)
        requires
            old(self)@.len() > 0,
        ensures
            final(self)@ == pushed(
                old(self)@,
                Statement::MemoryStore { destination: Box::new(destination), source, kind },
            ),
    {
        self.push_statement(Statement::MemoryStore { destination: Box::new(destination), source, kind });
    }

    /// Appends a fill of `size` bytes of memory with `byte`.
    pub fn emit_memory_fill(&mut self, destination: Location, byte: Expression, size: Expression)
        requires
            old(self)@.len() > 0,
        ensures
            final(self)@ == pushed(
                old(self)@,
                Statement::MemoryFill { destination: Box::new(destination), byte, size },
            ),
    {
        self.push_statement(Statement::MemoryFill { destination: Box::new(destination), byte, size });
    }

    /// Appends a copy of `size` bytes of memory.
    pub fn emit_memory_copy(&mut self, destination: Location, source: Location, size: Expression)
        requires
            old(self)@.len() > 0,
        ensures
            final(self)@ == pushed(
                old(self)@,
                Statement::MemoryCopy {
                    destination: Box::new(destination),
                    source: Box::new(source),
                    size,
                },
            ),
    {
        self.push_statement(
            Statement::MemoryCopy { destination: Box::new(destination), source: Box::new(source), size },
        );
    }

    /// Appends the drop of a data segment.
    pub fn emit_memory_drop(&mut self, source: Expression)
        requires
            old(self)@.len() > 0,
        ensures
            final(self)@ == pushed(old(self)@, Statement::MemoryDrop { source }),
    {
        self.push_statement(Statement::MemoryDrop { source });
    }
}

} // verus!
