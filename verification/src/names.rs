//! Scoped numbering of graph nodes for the JSON printer.
//!
//! Every node gets a global id, handed out in increasing order. Nested regions
//! open a scope: the ids assigned inside it are addressed by their position in
//! the scope, and leaving the scope forgets them again.

use vstd::prelude::*;

verus! {

/// The abstract state of a [`Names`]: the ids visible in the open scopes, in
/// assignment order, where each open scope begins in that sequence, and the
/// next id to hand out.
pub struct NamesModel {
    pub mapping: Seq<u32>,
    pub scopes: Seq<usize>,
    pub next_id: u32,
}

impl NamesModel {
    /// The state invariant: scope starts are ordered and lie within the
    /// mapping, and the mapping holds strictly increasing ids below `next_id`.
    pub open spec fn wf(self) -> bool {
        &&& forall|i: int, j: int|
            0 <= i <= j < self.scopes.len() ==> self.scopes[i] <= self.scopes[j]
        &&& forall|i: int| 0 <= i < self.scopes.len() ==> self.scopes[i] <= self.mapping.len()
        &&& forall|i: int, j: int|
            0 <= i < j < self.mapping.len() ==> self.mapping[i] < self.mapping[j]
        &&& forall|i: int| 0 <= i < self.mapping.len() ==> self.mapping[i] < self.next_id
        &&& self.mapping.len() <= self.next_id
    }

    /// The state with nothing assigned and no scope open.
    pub open spec fn empty() -> NamesModel {
        NamesModel { mapping: Seq::empty(), scopes: Seq::empty(), next_id: 0 }
    }

    /// Opening a scope records where its ids will begin.
    pub open spec fn enter_scope(self) -> NamesModel {
        NamesModel { scopes: self.scopes.push(self.mapping.len() as usize), ..self }
    }

    /// Closing the innermost scope forgets every id assigned inside it.
    pub open spec fn leave_scope(self) -> NamesModel
        recommends
            self.scopes.len() > 0,
    {
        NamesModel {
            mapping: self.mapping.take(self.scopes.last() as int),
            scopes: self.scopes.drop_last(),
            next_id: self.next_id,
        }
    }

    /// Assigning hands out `next_id` and makes it visible in the innermost scope.
    pub open spec fn assign(self) -> NamesModel {
        NamesModel {
            mapping: self.mapping.push(self.next_id),
            scopes: self.scopes,
            next_id: (self.next_id + 1) as u32,
        }
    }

    /// The id at position `local` of the innermost scope.
    pub open spec fn resolve(self, local: int) -> u32 {
        self.mapping[self.scopes.last() + local]
    }

    /// The state after `count` assignments in a row.
    pub open spec fn assign_times(self, count: nat) -> NamesModel
        decreases count,
    {
        if count == 0 {
            self
        } else {
            self.assign_times((count - 1) as nat).assign()
        }
    }
}

/// An id handed out by `assign` differs from every id still visible, and
/// assigning keeps the state invariant.
pub proof fn lemma_assign_is_fresh(m: NamesModel)
    requires
        m.wf(),
        m.next_id < u32::MAX,
    ensures
        !m.mapping.contains(m.next_id),
        m.assign().wf(),
        m.assign().mapping.last() == m.next_id,
{
}

/// `count` assignments append the ids `next_id .. next_id + count` in order
/// and leave the open scopes alone.
pub proof fn lemma_assign_times(m: NamesModel, count: nat)
    requires
        m.wf(),
        m.next_id + count <= u32::MAX,
    ensures
        m.assign_times(count).wf(),
        m.assign_times(count).scopes == m.scopes,
        m.assign_times(count).next_id == m.next_id + count,
        m.assign_times(count).mapping.len() == m.mapping.len() + count,
        m.assign_times(count).mapping.take(m.mapping.len() as int) == m.mapping,
        forall|k: int|
            0 <= k < count ==> #[trigger] m.assign_times(count).mapping[m.mapping.len() + k]
                == m.next_id + k,
    decreases count,
{
    if count > 0 {
        let prev = m.assign_times((count - 1) as nat);
        lemma_assign_times(m, (count - 1) as nat);
        assert(prev.mapping.push(prev.next_id).take(m.mapping.len() as int)
            =~= prev.mapping.take(m.mapping.len() as int));
        assert forall|k: int| 0 <= k < count implies #[trigger] m.assign_times(count).mapping[
            m.mapping.len() + k] == m.next_id + k by {
            if k < count - 1 {
                assert(prev.mapping[m.mapping.len() + k] == m.next_id + k);
            }
        }
    }
}

/// Within a freshly opened scope, position `k` resolves to the `k`-th id
/// assigned since the scope was opened, and the scope's entry is the first.
pub proof fn lemma_resolve_in_new_scope(m: NamesModel, count: nat, k: int)
    requires
        m.wf(),
        m.next_id + count <= u32::MAX,
        0 <= k < count,
    ensures
        m.enter_scope().assign_times(count).resolve(k) == m.next_id + k,
        m.enter_scope().assign_times(count).resolve(0) == m.next_id,
{
    let e = m.enter_scope();
    assert(e.wf()) by {
        assert(forall|i: int| 0 <= i < m.scopes.len() ==> e.scopes[i] == m.scopes[i]);
    }
    lemma_assign_times(e, count);
    assert(e.assign_times(count).scopes.last() == m.mapping.len());
    assert(e.assign_times(count).mapping[m.mapping.len() + k] == m.next_id + k);
    assert(e.assign_times(count).mapping[m.mapping.len() + 0int] == m.next_id + 0);
}

/// Leaving a scope undoes entering it: the visible ids and open scopes are
/// those from before, whatever was assigned inside; ids are never reused.
pub proof fn lemma_leave_undoes_enter(m: NamesModel, count: nat)
    requires
        m.wf(),
        m.next_id + count <= u32::MAX,
    ensures
        m.enter_scope().assign_times(count).leave_scope().mapping == m.mapping,
        m.enter_scope().assign_times(count).leave_scope().scopes == m.scopes,
        m.enter_scope().assign_times(count).leave_scope().next_id == m.next_id + count,
        m.enter_scope().assign_times(count).leave_scope().wf(),
{
    let e = m.enter_scope();
    assert(e.wf()) by {
        assert(forall|i: int| 0 <= i < m.scopes.len() ==> e.scopes[i] == m.scopes[i]);
    }
    lemma_assign_times(e, count);
    let a = e.assign_times(count);
    assert(a.scopes.drop_last() =~= m.scopes);
    let l = a.leave_scope();
    assert(l.mapping =~= m.mapping);
    assert forall|i: int| 0 <= i < l.scopes.len() implies l.scopes[i] <= l.mapping.len() by {
        assert(l.scopes[i] == m.scopes[i]);
    }
}

/// One call on a [`Names`]: `enter_scope`, `leave_scope` or `assign`.
pub enum NamesStep {
    Enter,
    Leave,
    Assign,
}

/// The state after one step.
pub open spec fn names_step(m: NamesModel, step: NamesStep) -> NamesModel {
    match step {
        NamesStep::Enter => m.enter_scope(),
        NamesStep::Leave => m.leave_scope(),
        NamesStep::Assign => m.assign(),
    }
}

/// The state after the steps, in order.
pub open spec fn names_steps(m: NamesModel, steps: Seq<NamesStep>) -> NamesModel
    decreases steps.len(),
{
    if steps.len() == 0 {
        m
    } else {
        names_step(names_steps(m, steps.drop_last()), steps.last())
    }
}

/// How many more scopes the steps open than they close.
pub open spec fn scope_depth(steps: Seq<NamesStep>) -> int
    decreases steps.len(),
{
    if steps.len() == 0 {
        0
    } else {
        scope_depth(steps.drop_last()) + match steps.last() {
            NamesStep::Enter => 1int,
            NamesStep::Leave => -1int,
            NamesStep::Assign => 0int,
        }
    }
}

/// How many ids the steps hand out.
pub open spec fn assign_count(steps: Seq<NamesStep>) -> nat
    decreases steps.len(),
{
    if steps.len() == 0 {
        0
    } else {
        assign_count(steps.drop_last()) + if steps.last() is Assign {
            1nat
        } else {
            0nat
        }
    }
}

/// No prefix of the steps closes a scope it did not open.
pub open spec fn never_below(steps: Seq<NamesStep>) -> bool {
    forall|i: int| 0 <= i <= steps.len() ==> scope_depth(#[trigger] steps.take(i)) >= 0
}

/// Enter and leave steps that pair up, with any assignments among them.
pub open spec fn balanced(steps: Seq<NamesStep>) -> bool {
    never_below(steps) && scope_depth(steps) == 0
}

/// Every id is handed out once: after any steps, the next id has grown by
/// exactly the number of assignments among them, whatever scopes were
/// entered and left, so `assign` counts the calls made since the numbering
/// started.
pub proof fn lemma_assign_counts(m: NamesModel, steps: Seq<NamesStep>)
    requires
        m.next_id + assign_count(steps) <= u32::MAX,
    ensures
        names_steps(m, steps).next_id == m.next_id + assign_count(steps),
    decreases steps.len(),
{
    if steps.len() > 0 {
        lemma_assign_counts(m, steps.drop_last());
    }
}

proof fn lemma_steps_keep_outer(m: NamesModel, steps: Seq<NamesStep>)
    requires
        m.wf(),
        never_below(steps),
        m.next_id + assign_count(steps) <= u32::MAX,
    ensures
        names_steps(m, steps).wf(),
        names_steps(m, steps).scopes.len() == m.scopes.len() + scope_depth(steps),
        names_steps(m, steps).scopes.take(m.scopes.len() as int) == m.scopes,
        forall|i: int|
            m.scopes.len() <= i < names_steps(m, steps).scopes.len() ==> #[trigger] names_steps(
                m,
                steps,
            ).scopes[i] >= m.mapping.len(),
        names_steps(m, steps).mapping.len() >= m.mapping.len(),
        names_steps(m, steps).mapping.take(m.mapping.len() as int) == m.mapping,
        names_steps(m, steps).next_id == m.next_id + assign_count(steps),
    decreases steps.len(),
{
    if steps.len() == 0 {
        assert(m.scopes.take(m.scopes.len() as int) =~= m.scopes);
        assert(m.mapping.take(m.mapping.len() as int) =~= m.mapping);
    } else {
        let before = steps.drop_last();
        assert forall|i: int| 0 <= i <= before.len() implies scope_depth(#[trigger] before.take(i)) >= 0 by {
            assert(before.take(i) =~= steps.take(i));
        }
        lemma_steps_keep_outer(m, before);
        assert(steps.take(steps.len() as int) =~= steps);
        let p = names_steps(m, before);
        let r = names_steps(m, steps);
        match steps.last() {
            NamesStep::Enter => {
                assert(r.scopes.take(m.scopes.len() as int) =~= p.scopes.take(m.scopes.len() as int));
                assert forall|i: int| 0 <= i < p.scopes.len() implies r.scopes[i] == p.scopes[i] by {}
            },
            NamesStep::Leave => {
                assert(r.scopes.take(m.scopes.len() as int) =~= p.scopes.take(m.scopes.len() as int));
                assert(p.scopes.last() >= m.mapping.len());
                assert(r.mapping.take(m.mapping.len() as int) =~= p.mapping.take(m.mapping.len() as int));
                assert forall|i: int| 0 <= i < r.scopes.len() implies r.scopes[i] <= r.mapping.len() by {
                    assert(r.scopes[i] == p.scopes[i]);
                }
            },
            NamesStep::Assign => {
                lemma_assign_is_fresh(p);
                assert(r.mapping.take(m.mapping.len() as int) =~= p.mapping.take(m.mapping.len() as int));
            },
        }
    }
}

/// Leaving a scope undoes entering it, however many scopes were opened and
/// closed inside it in pairs and ids assigned there: the visible ids and
/// open scopes are those from before, so every position resolves as before,
/// and the ids handed out inside are never handed out again.
pub proof fn lemma_balanced_scope_round_trip(m: NamesModel, steps: Seq<NamesStep>)
    requires
        m.wf(),
        balanced(steps),
        m.next_id + assign_count(steps) <= u32::MAX,
    ensures
        names_steps(m.enter_scope(), steps).scopes.len() > 0,
        names_steps(m.enter_scope(), steps).leave_scope().mapping == m.mapping,
        names_steps(m.enter_scope(), steps).leave_scope().scopes == m.scopes,
        names_steps(m.enter_scope(), steps).leave_scope().next_id == m.next_id + assign_count(steps),
        names_steps(m.enter_scope(), steps).leave_scope().wf(),
{
    let e = m.enter_scope();
    assert(e.wf()) by {
        assert(forall|i: int| 0 <= i < m.scopes.len() ==> e.scopes[i] == m.scopes[i]);
    }
    lemma_steps_keep_outer(e, steps);
    let r = names_steps(e, steps);
    assert(r.scopes =~= e.scopes);
    let l = r.leave_scope();
    assert(l.scopes =~= m.scopes);
    assert(l.mapping =~= m.mapping);
    assert forall|i: int| 0 <= i < l.scopes.len() implies l.scopes[i] <= l.mapping.len() by {
        assert(l.scopes[i] == m.scopes[i]);
    }
}

/// Hands out global node ids and resolves scope-local positions to them.
pub struct Names {
    mapping: Vec<u32>,
    scopes: Vec<usize>,
    next_id: u32,
}

impl View for Names {
    type V = NamesModel;

    closed spec fn view(&self) -> NamesModel {
        NamesModel { mapping: self.mapping@, scopes: self.scopes@, next_id: self.next_id }
    }
}

impl Names {
    /// Creates an empty numbering.
    pub fn new() -> (names: Self)
        ensures
            names@ == NamesModel::empty(),
            names@.wf(),
    {
        let names = Names { mapping: Vec::new(), scopes: Vec::new(), next_id: 0 };
        assert(names@.mapping =~= Seq::<u32>::empty());
        assert(names@.scopes =~= Seq::<usize>::empty());
        names
    }

    /// Forgets every scope and id and restarts the numbering at zero.
    pub fn clear(&mut self)
        ensures
            final(self)@ == NamesModel::empty(),
            final(self)@.wf(),
    {
        self.mapping.clear();
        self.scopes.clear();
        self.next_id = 0;
        assert(self@.mapping =~= Seq::<u32>::empty());
        assert(self@.scopes =~= Seq::<usize>::empty());
    }

    /// Opens a new innermost scope.
    pub fn enter_scope(&mut self)
        requires
            old(self)@.wf(),
        ensures
            final(self)@ == old(self)@.enter_scope(),
            final(self)@.wf(),
    {
        let len = self.mapping.len();
        self.scopes.push(len);
        assert(forall|i: int| 0 <= i < old(self)@.scopes.len() ==> self@.scopes[i] == old(self)@.scopes[i]);
    }

    /// Closes the innermost scope, forgetting the ids assigned in it.
    pub fn leave_scope(&mut self)
        requires
            old(self)@.wf(),
            old(self)@.scopes.len() > 0,
        ensures
            final(self)@ == old(self)@.leave_scope(),
            final(self)@.wf(),
    {
        let base = self.scopes.pop().unwrap();
        self.mapping.truncate(base);
        assert(self@.mapping =~= old(self)@.mapping.take(base as int));
        assert(self@.scopes =~= old(self)@.scopes.drop_last());
    }

    /// Hands out the next id and records it in the innermost scope.
    pub fn assign(&mut self) -> (global: u32)
        requires
            old(self)@.wf(),
            old(self)@.next_id < u32::MAX,
        ensures
            global == old(self)@.next_id,
            final(self)@ == old(self)@.assign(),
            final(self)@.wf(),
    {
        let global = self.next_id;
        self.next_id = self.next_id + 1;
        self.mapping.push(global);
        proof {
            lemma_assign_is_fresh(old(self)@);
        }
        assert(self@.mapping =~= old(self)@.assign().mapping);
        global
    }

    /// The first id assigned in the innermost scope.
    pub fn entry(&self) -> (global: u32)
        requires
            self@.wf(),
            self@.scopes.len() > 0,
            self@.scopes.last() < self@.mapping.len(),
        ensures
            global == self@.resolve(0),
    {
        let last = self.scopes.len() - 1;
        self.mapping[self.scopes[last]]
    }

    /// The last id assigned in any open scope.
    pub fn exit(&self) -> (global: u32)
        requires
            self@.mapping.len() > 0,
        ensures
            global == self@.mapping.last(),
    {
        let last = self.mapping.len() - 1;
        self.mapping[last]
    }

    /// The id at position `local` of the innermost scope.
    pub fn resolve(&self, local: usize) -> (global: u32)
        requires
            self@.wf(),
            self@.scopes.len() > 0,
            self@.scopes.last() + local < self@.mapping.len(),
        ensures
            global == self@.resolve(local as int),
    {
        let last = self.scopes.len() - 1;
        let base = self.scopes[last];
        assert(base == self@.scopes.last());
        assert(base + local < self.mapping.len());
        self.mapping[base + local]
    }
}

} // verus!
