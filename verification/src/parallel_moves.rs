//! Turning a parallel move of locals into statements run one after another.
//!
//! A parallel move assigns every destination the value its source held
//! before any of the moves. A destination that no pending move still reads
//! is assigned at once; when every pending destination is still read, two
//! of them are swapped, which settles one move and leaves the others to
//! read from where their values went.

use vstd::prelude::*;

use crate::luajit::Local;
use crate::luau_code::Statement;
use crate::luau_data::Expression;

verus! {

/// The local whose original value each local holds.
pub type Contents = spec_fn(Local) -> Local;

/// The local that follows `x` in the cycle `locals`, the first one after
/// the last; a local outside the cycle is its own.
pub open spec fn cycle_next(locals: Seq<Local>, first: Local, x: Local) -> Local
    decreases locals.len(),
{
    if locals.len() == 0 {
        x
    } else if locals[0] == x {
        if locals.len() >= 2 {
            locals[1]
        } else {
            first
        }
    } else {
        cycle_next(locals.drop_first(), first, x)
    }
}

/// What one statement does to the contents of the locals: an assignment of
/// a local copies what it holds, and a cyclic swap gives each local of the
/// cycle what the next one held, the last what the first held. Any other
/// statement moves no local.
pub open spec fn move_step(contents: Contents, statement: Statement) -> Contents {
    match statement {
        Statement::Assign { destination, source } => match source {
            Expression::Local(from) => |x: Local|
                if x == destination {
                    contents(from)
                } else {
                    contents(x)
                },
            _ => contents,
        },
        Statement::SwapAll { locals } => if locals@.len() > 0 {
            |x: Local| contents(cycle_next(locals@, locals@[0], x))
        } else {
            contents
        },
        _ => contents,
    }
}

/// The contents after the statements, in order.
pub open spec fn run_moves(contents: Contents, statements: Seq<Statement>) -> Contents
    decreases statements.len(),
{
    if statements.len() == 0 {
        contents
    } else {
        move_step(run_moves(contents, statements.drop_last()), statements.last())
    }
}

/// No two moves write the same destination.
pub open spec fn distinct_destinations(pairs: Seq<(Local, Local)>) -> bool {
    forall|i: int, j: int| 0 <= i < j < pairs.len() ==> pairs[i].0 != pairs[j].0
}

/// Whether some move writes `x`.
pub open spec fn is_destination(pairs: Seq<(Local, Local)>, x: Local) -> bool {
    exists|i: int| 0 <= i < pairs.len() && #[trigger] pairs[i].0 == x
}

/// Whether the statements, run from untouched locals, perform the parallel
/// move: every destination holds the original value of its source, and
/// every other local its own.
pub open spec fn performs(statements: Seq<Statement>, pairs: Seq<(Local, Local)>) -> bool {
    let contents = run_moves(|x: Local| x, statements);
    &&& forall|i: int| 0 <= i < pairs.len() ==> contents(#[trigger] pairs[i].0) == pairs[i].1
    &&& forall|x: Local| !is_destination(pairs, x) ==> contents(x) == x
}

/// Whether some move reads `x`.
pub open spec fn is_source(pairs: Seq<(Local, Local)>, x: Local) -> bool {
    exists|k: int| 0 <= k < pairs.len() && #[trigger] pairs[k].1 == x
}

/// The source of each destination.
pub open spec fn sources_of(pairs: Seq<(Local, Local)>) -> Map<Local, Local>
    decreases pairs.len(),
{
    if pairs.len() == 0 {
        Map::empty()
    } else {
        sources_of(pairs.drop_last()).insert(pairs.last().0, pairs.last().1)
    }
}

proof fn lemma_sources_of(pairs: Seq<(Local, Local)>)
    requires
        distinct_destinations(pairs),
    ensures
        forall|x: Local| sources_of(pairs).contains_key(x) <==> is_destination(pairs, x),
        forall|i: int| 0 <= i < pairs.len() ==> sources_of(pairs)[#[trigger] pairs[i].0] == pairs[i].1,
    decreases pairs.len(),
{
    if pairs.len() > 0 {
        let before = pairs.drop_last();
        lemma_sources_of(before);
        assert forall|x: Local| sources_of(pairs).contains_key(x) <==> is_destination(pairs, x) by {
            if is_destination(pairs, x) {
                let i = choose|i: int| 0 <= i < pairs.len() && #[trigger] pairs[i].0 == x;
                if i < pairs.len() - 1 {
                    assert(before[i].0 == x);
                    assert(is_destination(before, x));
                }
            }
            if sources_of(pairs).contains_key(x) {
                if x == pairs.last().0 {
                    assert(pairs[pairs.len() - 1].0 == x);
                } else {
                    assert(sources_of(before).contains_key(x));
                    assert(is_destination(before, x));
                    let i = choose|i: int| 0 <= i < before.len() && #[trigger] before[i].0 == x;
                    assert(pairs[i].0 == x);
                }
            }
        }
        assert forall|i: int| 0 <= i < pairs.len() implies sources_of(pairs)[#[trigger] pairs[i].0]
            == pairs[i].1 by {
            if i < pairs.len() - 1 {
                assert(before[i] == pairs[i]);
                assert(pairs[i].0 != pairs.last().0);
            }
        }
    }
}

fn find_self_move(pending: &Vec<(Local, Local)>) -> (found: Option<usize>)
    ensures
        found matches Some(i) ==> i < pending@.len() && pending@[i as int].0 == pending@[i as int].1,
        found is None ==> forall|i: int| 0 <= i < pending@.len() ==> pending@[i].0 != pending@[i].1,
{
    let mut i: usize = 0;
    while i < pending.len()
        invariant
            i <= pending@.len(),
            forall|k: int| 0 <= k < i ==> pending@[k].0 != pending@[k].1,
        decreases pending@.len() - i,
    {
        if pending[i].0 == pending[i].1 {
            return Some(i);
        }
        i += 1;
    }
    None
}

fn find_reader(pending: &Vec<(Local, Local)>, x: Local) -> (found: Option<usize>)
    ensures
        found matches Some(k) ==> k < pending@.len() && pending@[k as int].1 == x,
        found is None ==> forall|k: int| 0 <= k < pending@.len() ==> pending@[k].1 != x,
{
    let mut k: usize = 0;
    while k < pending.len()
        invariant
            k <= pending@.len(),
            forall|j: int| 0 <= j < k ==> pending@[j].1 != x,
        decreases pending@.len() - k,
    {
        if pending[k].1 == x {
            return Some(k);
        }
        k += 1;
    }
    None
}

fn find_free(pending: &Vec<(Local, Local)>) -> (found: Option<usize>)
    ensures
        found matches Some(i) ==> i < pending@.len() && forall|k: int|
            0 <= k < pending@.len() ==> pending@[k].1 != pending@[i as int].0,
        found is None ==> forall|i: int|
            0 <= i < pending@.len() ==> is_source(pending@, #[trigger] pending@[i].0),
{
    let mut i: usize = 0;
    while i < pending.len()
        invariant
            i <= pending@.len(),
            forall|j: int| 0 <= j < i ==> is_source(pending@, #[trigger] pending@[j].0),
        decreases pending@.len() - i,
    {
        match find_reader(pending, pending[i].0) {
            None => {
                return Some(i);
            },
            Some(k) => {
                assert(pending@[k as int].1 == pending@[i as int].0);
            },
        }
        i += 1;
    }
    None
}

/// The moves with the sources `a` and `b` exchanged.
fn exchange_sources(pending: &Vec<(Local, Local)>, a: Local, b: Local) -> (exchanged: Vec<(Local, Local)>)
    ensures
        exchanged@.len() == pending@.len(),
        forall|k: int|
            0 <= k < pending@.len() ==> (#[trigger] exchanged@[k]).0 == pending@[k].0 && exchanged@[k].1 == (
            if pending@[k].1 == a {
                b
            } else if pending@[k].1 == b {
                a
            } else {
                pending@[k].1
            }),
{
    let mut exchanged: Vec<(Local, Local)> = Vec::new();
    let mut k: usize = 0;
    while k < pending.len()
        invariant
            k <= pending@.len(),
            exchanged@.len() == k,
            forall|j: int|
                0 <= j < k ==> (#[trigger] exchanged@[j]).0 == pending@[j].0 && exchanged@[j].1 == (
                if pending@[j].1 == a {
                    b
                } else if pending@[j].1 == b {
                    a
                } else {
                    pending@[j].1
                }),
        decreases pending@.len() - k,
    {
        let (destination, source) = pending[k];
        let source = if source == a {
            b
        } else if source == b {
            a
        } else {
            source
        };
        exchanged.push((destination, source));
        k += 1;
    }
    exchanged
}

/// The state of the sequencing: the pending moves read where their values
/// are now, the settled destinations hold their values, and no other local
/// was touched.
#[verifier::opaque]
pub open spec fn move_state_ok(
    pending: Seq<(Local, Local)>,
    contents: Contents,
    target: Map<Local, Local>,
    done: Set<Local>,
) -> bool {
    &&& distinct_destinations(pending)
    &&& forall|i: int|
        0 <= i < pending.len() ==> target.contains_key(#[trigger] pending[i].0) && !done.contains(
            pending[i].0,
        )
    &&& forall|x: Local| target.contains_key(x) ==> done.contains(x) || is_destination(pending, x)
    &&& forall|i: int| 0 <= i < pending.len() ==> contents(#[trigger] pending[i].1) == target[pending[i].0]
    &&& forall|x: Local| #[trigger] done.contains(x) ==> target.contains_key(x) && contents(x) == target[x]
    &&& forall|x: Local| !target.contains_key(x) ==> contents(x) == x
}

proof fn lemma_remove_keeps(
    pending: Seq<(Local, Local)>,
    target: Map<Local, Local>,
    done: Set<Local>,
    i: int,
)
    requires
        0 <= i < pending.len(),
        distinct_destinations(pending),
        forall|x: Local| target.contains_key(x) ==> done.contains(x) || is_destination(pending, x),
        forall|k: int|
            0 <= k < pending.len() ==> target.contains_key(#[trigger] pending[k].0) && !done.contains(
                pending[k].0,
            ),
    ensures
        distinct_destinations(pending.remove(i)),
        forall|x: Local|
            target.contains_key(x) ==> done.insert(pending[i].0).contains(x) || is_destination(
                pending.remove(i),
                x,
            ),
        forall|k: int|
            0 <= k < pending.remove(i).len() ==> target.contains_key(#[trigger] pending.remove(i)[k].0)
                && !done.insert(pending[i].0).contains(pending.remove(i)[k].0),
        forall|k: int|
            0 <= k < pending.remove(i).len() ==> #[trigger] pending.remove(i)[k] == pending[if k < i {
                k
            } else {
                k + 1
            }],
{
    let rest = pending.remove(i);
    let d = pending[i].0;
    assert forall|k: int| 0 <= k < rest.len() implies #[trigger] rest[k] == pending[if k < i {
        k
    } else {
        k + 1
    }] by {}
    assert forall|x: Local| target.contains_key(x) implies done.insert(d).contains(x) || is_destination(rest, x) by {
        if !done.insert(d).contains(x) {
            let k = choose|k: int| 0 <= k < pending.len() && #[trigger] pending[k].0 == x;
            if k < i {
                assert(rest[k].0 == x);
            } else {
                assert(rest[k - 1].0 == x);
            }
        }
    }
    assert forall|a: int, b: int| 0 <= a < b < rest.len() implies rest[a].0 != rest[b].0 by {
        let a0 = if a < i { a } else { a + 1 };
        let b0 = if b < i { b } else { b + 1 };
        assert(rest[a] == pending[a0] && rest[b] == pending[b0]);
    }
    assert forall|k: int| 0 <= k < rest.len() implies target.contains_key(#[trigger] rest[k].0)
        && !done.insert(d).contains(rest[k].0) by {
        let k0 = if k < i { k } else { k + 1 };
        assert(rest[k] == pending[k0]);
        assert(pending[k0].0 != pending[i].0);
    }
}

proof fn lemma_settle_self(
    pending: Seq<(Local, Local)>,
    contents: Contents,
    target: Map<Local, Local>,
    done: Set<Local>,
    i: int,
)
    requires
        move_state_ok(pending, contents, target, done),
        0 <= i < pending.len(),
        pending[i].0 == pending[i].1,
    ensures
        move_state_ok(pending.remove(i), contents, target, done.insert(pending[i].0)),
{
    reveal(move_state_ok);
    lemma_remove_keeps(pending, target, done, i);
    let rest = pending.remove(i);
    assert forall|k: int| 0 <= k < rest.len() implies contents(#[trigger] rest[k].1) == target[rest[k].0] by {
        let k0 = if k < i { k } else { k + 1 };
        assert(rest[k] == pending[k0]);
    }
}

proof fn lemma_settle_free(
    pending: Seq<(Local, Local)>,
    contents: Contents,
    after: Contents,
    target: Map<Local, Local>,
    done: Set<Local>,
    i: int,
)
    requires
        move_state_ok(pending, contents, target, done),
        0 <= i < pending.len(),
        forall|k: int| 0 <= k < pending.len() ==> pending[k].1 != pending[i].0,
        forall|x: Local| #[trigger] after(x) == if x == pending[i].0 {
            contents(pending[i].1)
        } else {
            contents(x)
        },
    ensures
        move_state_ok(pending.remove(i), after, target, done.insert(pending[i].0)),
{
    reveal(move_state_ok);
    lemma_remove_keeps(pending, target, done, i);
    let rest = pending.remove(i);
    let d = pending[i].0;
    assert forall|k: int| 0 <= k < rest.len() implies after(#[trigger] rest[k].1) == target[rest[k].0] by {
        let k0 = if k < i { k } else { k + 1 };
        assert(rest[k] == pending[k0]);
        assert(pending[k0].1 != d);
    }
    assert forall|x: Local| #[trigger] done.insert(d).contains(x) implies target.contains_key(x) && after(x)
        == target[x] by {
        if x != d {
            assert(done.contains(x));
        }
    }
}

proof fn lemma_settle_swap(
    pending: Seq<(Local, Local)>,
    exchanged: Seq<(Local, Local)>,
    contents: Contents,
    after: Contents,
    target: Map<Local, Local>,
    done: Set<Local>,
    j: int,
)
    requires
        move_state_ok(pending, contents, target, done),
        0 < j < pending.len(),
        pending[j].1 == pending[0].0,
        pending[j].0 != pending[0].0,
        after(pending[j].0) == contents(pending[0].0),
        after(pending[0].0) == contents(pending[j].0),
        forall|x: Local| x != pending[j].0 && x != pending[0].0 ==> #[trigger] after(x) == contents(x),
        exchanged.len() == pending.len(),
        forall|k: int|
            0 <= k < pending.len() ==> (#[trigger] exchanged[k]).0 == pending[k].0 && exchanged[k].1 == (
            if pending[k].1 == pending[0].0 {
                pending[j].0
            } else if pending[k].1 == pending[j].0 {
                pending[0].0
            } else {
                pending[k].1
            }),
    ensures
        move_state_ok(exchanged.remove(j), after, target, done.insert(pending[j].0)),
{
    reveal(move_state_ok);
    let settled = pending[j].0;
    let first = pending[0].0;
    assert(distinct_destinations(exchanged)) by {
        assert forall|a: int, b: int| 0 <= a < b < exchanged.len() implies exchanged[a].0 != exchanged[b].0 by {
            assert(exchanged[a].0 == pending[a].0 && exchanged[b].0 == pending[b].0);
        }
    }
    assert forall|x: Local| target.contains_key(x) implies done.contains(x) || is_destination(exchanged, x) by {
        if !done.contains(x) {
            let k = choose|k: int| 0 <= k < pending.len() && #[trigger] pending[k].0 == x;
            assert(exchanged[k].0 == x);
        }
    }
    assert forall|k: int| 0 <= k < exchanged.len() implies target.contains_key(#[trigger] exchanged[k].0)
        && !done.contains(exchanged[k].0) by {
        assert(exchanged[k].0 == pending[k].0);
    }
    assert(exchanged[j].0 == settled);
    lemma_remove_keeps(exchanged, target, done, j);
    let rest = exchanged.remove(j);
    assert(target.contains_key(settled) && target.contains_key(first));
    assert forall|k: int| 0 <= k < rest.len() implies after(#[trigger] rest[k].1) == target[rest[k].0] by {
        let k0 = if k < j { k } else { k + 1 };
        assert(rest[k] == exchanged[k0]);
        assert(contents(pending[k0].1) == target[pending[k0].0]);
    }
    assert forall|x: Local| #[trigger] done.insert(settled).contains(x) implies target.contains_key(x) && after(x)
        == target[x] by {
        if x != settled {
            assert(done.contains(x));
            assert(x != first);
        } else {
            assert(contents(pending[j].1) == target[pending[j].0]);
        }
    }
}

proof fn lemma_state_start(pairs: Seq<(Local, Local)>)
    requires
        distinct_destinations(pairs),
    ensures
        move_state_ok(pairs, |x: Local| x, sources_of(pairs), Set::empty()),
{
    reveal(move_state_ok);
    lemma_sources_of(pairs);
    assert forall|i: int| 0 <= i < pairs.len() implies sources_of(pairs).contains_key(#[trigger] pairs[i].0) by {
        assert(is_destination(pairs, pairs[i].0));
    }
}

proof fn lemma_state_end(pairs: Seq<(Local, Local)>, contents: Contents, done: Set<Local>)
    requires
        distinct_destinations(pairs),
        move_state_ok(Seq::empty(), contents, sources_of(pairs), done),
    ensures
        forall|i: int| 0 <= i < pairs.len() ==> contents(#[trigger] pairs[i].0) == pairs[i].1,
        forall|x: Local| !is_destination(pairs, x) ==> contents(x) == x,
{
    reveal(move_state_ok);
    lemma_sources_of(pairs);
    let target = sources_of(pairs);
    assert forall|i: int| 0 <= i < pairs.len() implies contents(#[trigger] pairs[i].0) == pairs[i].1 by {
        assert(is_destination(pairs, pairs[i].0));
        assert(target.contains_key(pairs[i].0));
        if !done.contains(pairs[i].0) {
            assert(is_destination(Seq::<(Local, Local)>::empty(), pairs[i].0));
            let k = choose|k: int| 0 <= k < 0 && #[trigger] Seq::<(Local, Local)>::empty()[k].0 == pairs[i].0;
        }
    }
}

/// Statements, one after another, that perform the parallel move `pairs`:
/// assignments of locals and swaps of two locals.
pub fn sequence_moves(pairs: Vec<(Local, Local)>) -> (statements: Vec<Statement>)
    requires
        distinct_destinations(pairs@),
    ensures
        performs(statements@, pairs@),
        pairs@.len() == 0 ==> statements@.len() == 0,
{
    let ghost target = sources_of(pairs@);
    let ghost original = pairs@;
    proof {
        lemma_state_start(pairs@);
    }
    let mut pending = pairs;
    let mut statements: Vec<Statement> = Vec::new();
    let ghost mut done: Set<Local> = Set::empty();
    while pending.len() > 0
        invariant
            move_state_ok(pending@, run_moves(|x: Local| x, statements@), target, done),
            original.len() == 0 ==> statements@.len() == 0 && pending@.len() == 0,
        decreases pending@.len(),
    {
        let ghost before = pending@;
        let ghost earlier = statements@;
        let ghost contents = run_moves(|x: Local| x, statements@);
        match find_self_move(&pending) {
            Some(i) => {
                let (destination, _) = pending.remove(i);
                proof {
                    lemma_settle_self(before, contents, target, done, i as int);
                    done = done.insert(destination);
                }
            },
            None => {
                match find_free(&pending) {
                    Some(i) => {
                        let (destination, source) = pending.remove(i);
                        statements.push(Statement::Assign { destination, source: Expression::Local(source) });
                        proof {
                            assert(statements@.drop_last() =~= earlier);
                            let after = run_moves(|x: Local| x, statements@);
                            assert(forall|x: Local| #[trigger] after(x) == if x == destination { contents(source) } else { contents(x) });
                            lemma_settle_free(before, contents, after, target, done, i as int);
                            done = done.insert(destination);
                        }
                    },
                    None => {
                        let first = pending[0].0;
                        proof {
                            assert(is_source(pending@, pending@[0].0));
                        }
                        let j = match find_reader(&pending, first) {
                            Some(j) => j,
                            None => {
                                proof {
                                    let k = choose|k: int| 0 <= k < pending@.len() && #[trigger] pending@[k].1 == pending@[0].0;
                                    assert(pending@[k].1 != first);
                                }
                                0
                            },
                        };
                        let settled = pending[j].0;
                        proof {
                            reveal(move_state_ok);
                        }
                        assert(j != 0);
                        assert(settled != first);
                        let mut swapped: Vec<Local> = Vec::new();
                        swapped.push(settled);
                        swapped.push(first);
                        statements.push(Statement::SwapAll { locals: swapped });
                        let mut exchanged = exchange_sources(&pending, first, settled);
                        let ghost all_exchanged = exchanged@;
                        exchanged.remove(j);
                        pending = exchanged;
                        proof {
                            assert(statements@.drop_last() =~= earlier);
                            let after = run_moves(|x: Local| x, statements@);
                            reveal_with_fuel(cycle_next, 3);
                            let cycle = seq![settled, first];
                            assert(swapped@ =~= cycle);
                            assert(cycle_next(cycle, settled, settled) == first);
                            assert(cycle.drop_first() =~= seq![first]);
                            assert(cycle_next(cycle, settled, first) == settled);
                            assert forall|x: Local| x != settled && x != first implies cycle_next(cycle, settled, x) == x by {
                                assert(cycle.drop_first().drop_first() =~= Seq::<Local>::empty());
                            }
                            assert(forall|x: Local| x != settled && x != first ==> #[trigger] after(x) == contents(x));
                            lemma_settle_swap(before, all_exchanged, contents, after, target, done, j as int);
                            done = done.insert(settled);
                        }
                    },
                }
            },
        }
    }
    proof {
        assert(pending@ =~= Seq::<(Local, Local)>::empty());
        lemma_state_end(original, run_moves(|x: Local| x, statements@), done);
    }
    statements
}

} // verus!
