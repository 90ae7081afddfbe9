//! Recycling of local-variable indices with lifetimes.
//!
//! A pulled index is *held* until a given point of the program; once that
//! point is reached (`push_until`) it becomes *free* and is handed out again
//! before any new index is created.

use vstd::prelude::*;
use vstd::multiset::Multiset;

verus! {

broadcast use {vstd::seq_lib::group_to_multiset_ensures, vstd::multiset::group_multiset_axioms};

/// The abstract state of an [`IndexProvider`]: the held indices with the point
/// each is held until (as `(index, until)` pairs), the free indices, and the
/// count of indices created so far.
pub struct IndexModel {
    pub holds: Multiset<(u32, u32)>,
    pub free: Multiset<u32>,
    pub names: u32,
}

/// `x` is the largest element of `m`.
pub open spec fn is_largest(m: Multiset<u32>, x: u32) -> bool {
    &&& m.contains(x)
    &&& forall|y: u32| m.contains(y) ==> y <= x
}

/// The largest element of a nonempty multiset.
pub open spec fn largest(m: Multiset<u32>) -> u32 {
    choose|x: u32| is_largest(m, x)
}

/// The indices below `last`.
pub open spec fn below(last: u32) -> spec_fn(u32) -> bool {
    |n: u32| n < last
}

/// Every hold lasts at least until `end`.
pub open spec fn holds_reach(holds: Multiset<(u32, u32)>, end: u32) -> bool {
    forall|h: (u32, u32)| holds.contains(h) ==> h.1 >= end
}

/// The holds that do not end at `end`.
pub open spec fn holds_not_ending(holds: Multiset<(u32, u32)>, end: u32) -> Multiset<(u32, u32)> {
    holds.filter(not_ending_at(end))
}

/// The holds that do not end at `end`, as a predicate.
pub open spec fn not_ending_at(end: u32) -> spec_fn((u32, u32)) -> bool {
    |h: (u32, u32)| h.1 != end
}

impl IndexModel {
    /// The state with nothing held, nothing free and no index created.
    pub open spec fn empty() -> IndexModel {
        IndexModel { holds: Multiset::empty(), free: Multiset::empty(), names: 0 }
    }

    /// Whether `pull` can proceed without exhausting the `u32` indices.
    pub open spec fn can_pull(self) -> bool {
        self.free.len() > 0 || self.names < u32::MAX
    }

    /// No index is held twice, no index is both held and free, no index is
    /// free twice, and every index in use was created.
    pub open spec fn wf(self) -> bool {
        &&& forall|n: u32| #[trigger] self.free.count(n) <= 1
        &&& forall|n: u32, u: u32| #[trigger] self.holds.count((n, u)) <= 1
        &&& forall|n: u32, u: u32, v: u32|
            self.holds.contains((n, u)) && self.holds.contains((n, v)) ==> u == v
        &&& forall|n: u32, u: u32| self.holds.contains((n, u)) ==> !self.free.contains(n)
        &&& forall|n: u32| self.free.contains(n) ==> n < self.names
        &&& forall|n: u32, u: u32| self.holds.contains((n, u)) ==> n < self.names
    }

    /// Some hold has index `n`.
    pub open spec fn is_held(self, n: u32) -> bool {
        exists|u: u32| self.holds.contains((n, u))
    }

    /// The index `pull` hands out: the largest free one, else a new one.
    pub open spec fn next_pulled(self) -> u32 {
        if self.free.len() == 0 {
            self.names
        } else {
            largest(self.free)
        }
    }

    /// The state after pulling an index held until `until`.
    pub open spec fn pull(self, until: u32) -> IndexModel {
        if self.free.len() == 0 {
            IndexModel {
                holds: self.holds.insert((self.names, until)),
                free: self.free,
                names: (self.names + 1) as u32,
            }
        } else {
            let n = largest(self.free);
            IndexModel {
                holds: self.holds.insert((n, until)),
                free: self.free.remove(n),
                names: self.names,
            }
        }
    }

    /// The state after reviving the free index `n` until `until`.
    pub open spec fn revive(self, n: u32, until: u32) -> IndexModel {
        IndexModel { holds: self.holds.insert((n, until)), free: self.free.remove(n), names: self.names }
    }

    /// The state after reaching `end`: when every hold lasts at least until
    /// `end`, the holds ending there release their indices.
    pub open spec fn push_until(self, end: u32) -> IndexModel {
        if holds_reach(self.holds, end) {
            IndexModel {
                holds: holds_not_ending(self.holds, end),
                free: self.free.add(released(self.holds, end)),
                names: self.names,
            }
        } else {
            self
        }
    }
}

/// The indices that appear in some hold ending at `end`.
pub open spec fn ending_indices(holds: Multiset<(u32, u32)>, end: u32) -> Set<u32> {
    ending_holds(holds, end).map(|h: (u32, u32)| h.0)
}

/// The distinct holds that end at `end`.
pub open spec fn ending_holds(holds: Multiset<(u32, u32)>, end: u32) -> Set<(u32, u32)> {
    holds.dom().filter(|h: (u32, u32)| h.1 == end)
}

/// The indices of the holds that end at `end`, each as often as it is held
/// until `end`.
pub open spec fn released(holds: Multiset<(u32, u32)>, end: u32) -> Multiset<u32> {
    Multiset::from_map(
        Map::new(|n: u32| ending_indices(holds, end).contains(n), |n: u32| holds.count((n, end))),
    )
}

/// An index is released by reaching `end` exactly as often as it is held
/// until `end`.
pub proof fn lemma_released_count(holds: Multiset<(u32, u32)>, end: u32, n: u32)
    ensures
        released(holds, end).count(n) == holds.count((n, end)),
{
    let dom = ending_indices(holds, end);
    let filtered = ending_holds(holds, end);
    assert(filtered.finite()) by {
        vstd::multiset::axiom_multiset_always_finite(holds);
        holds.dom().lemma_len_filter(|h: (u32, u32)| h.1 == end);
    }
    filtered.lemma_map_finite(|h: (u32, u32)| h.0);
    let m = Map::new(|k: u32| dom.contains(k), |k: u32| holds.count((k, end)));
    assert(m.dom() =~= dom);
    if holds.count((n, end)) > 0 {
        assert(filtered.contains((n, end)));
        assert(dom.contains((n, end).0));
    }
    if dom.contains(n) {
        assert(Multiset::from_map(m).count(n) == m[n]);
    } else {
        assert(Multiset::from_map(m).count(n) == 0);
    }
}

/// The index `pull` hands out is held by no one: it is free or newly
/// created, and pulling keeps the state invariant.
pub proof fn lemma_pull_is_exclusive(m: IndexModel, until: u32)
    requires
        m.wf(),
        m.free.len() > 0 || m.names < u32::MAX,
    ensures
        !m.is_held(m.next_pulled()),
        m.pull(until).wf(),
        m.pull(until).is_held(m.next_pulled()),
        m.free.len() > 0 ==> m.free.contains(m.next_pulled()) && m.pull(until).names == m.names,
{
    let n = m.next_pulled();
    if m.free.len() > 0 {
        lemma_largest_exists(m.free);
        assert(is_largest(m.free, n));
    }
    assert(!m.is_held(n)) by {
        if m.is_held(n) {
            let u = choose|u: u32| m.holds.contains((n, u));
            assert(!m.free.contains(n));
        }
    }
    let p = m.pull(until);
    assert(p.holds.contains((n, until)));
    assert forall|k: u32, u: u32| #[trigger] p.holds.count((k, u)) <= 1 by {
        if (k, u) != (n, until) {
            assert(p.holds.count((k, u)) == m.holds.count((k, u)));
        } else {
            if m.holds.count((k, u)) > 0 {
                assert(m.holds.contains((n, until)));
                assert(m.is_held(n));
            }
        }
    }
    assert forall|k: u32, u: u32, v: u32|
        p.holds.contains((k, u)) && p.holds.contains((k, v)) implies u == v by {
        if k == n {
            if u != until {
                assert(m.holds.contains((n, u)));
            }
            if v != until {
                assert(m.holds.contains((n, v)));
            }
        } else {
            assert(m.holds.contains((k, u)) && m.holds.contains((k, v)));
        }
    }
    assert forall|k: u32, u: u32| p.holds.contains((k, u)) implies !p.free.contains(k) by {
        if k != n {
            assert(m.holds.contains((k, u)));
            assert(p.free.count(k) <= m.free.count(k));
        } else if m.free.len() > 0 {
            assert(m.free.count(n) <= 1);
        } else {
            assert(m.free.count(n) == 0);
        }
    }
    assert forall|k: u32| p.free.contains(k) implies k < p.names by {
        assert(p.free.count(k) <= m.free.count(k));
        assert(m.free.contains(k));
        assert(p.names >= m.names);
    }
    assert forall|k: u32, u: u32| p.holds.contains((k, u)) implies k < p.names by {
        if k != n {
            assert(m.holds.contains((k, u)));
        }
    }
    assert forall|k: u32| #[trigger] p.free.count(k) <= 1 by {
        assert(p.free.count(k) <= m.free.count(k));
    }
}

/// Reaching a program point keeps the state invariant: released indices
/// were held exactly once and so become free exactly once.
pub proof fn lemma_push_until_keeps_wf(m: IndexModel, end: u32)
    requires
        m.wf(),
    ensures
        m.push_until(end).wf(),
{
    if holds_reach(m.holds, end) {
        let q = m.push_until(end);
        assert forall|k: u32| #[trigger] q.free.count(k) <= 1 by {
            lemma_released_count(m.holds, end, k);
            if m.holds.count((k, end)) > 0 {
                assert(m.holds.contains((k, end)));
                assert(!m.free.contains(k));
            }
        }
        assert forall|k: u32, u: u32| #[trigger] q.holds.count((k, u)) <= 1 by {
            assert(q.holds.count((k, u)) <= m.holds.count((k, u)));
        }
        assert forall|k: u32, u: u32| q.holds.contains((k, u)) implies !q.free.contains(k) by {
            assert(m.holds.contains((k, u)));
            assert(u != end);
            lemma_released_count(m.holds, end, k);
            if m.holds.count((k, end)) > 0 {
                assert(m.holds.contains((k, end)));
            }
        }
        assert forall|k: u32| q.free.contains(k) implies k < q.names by {
            lemma_released_count(m.holds, end, k);
            if m.holds.count((k, end)) > 0 {
                assert(m.holds.contains((k, end)));
            } else {
                assert(m.free.contains(k));
            }
        }
        assert forall|k: u32, u: u32, v: u32|
            q.holds.contains((k, u)) && q.holds.contains((k, v)) implies u == v by {
            assert(m.holds.contains((k, u)) && m.holds.contains((k, v)));
        }
        assert forall|k: u32, u: u32| q.holds.contains((k, u)) implies k < q.names by {
            assert(m.holds.contains((k, u)));
        }
    }
}

/// An index pulled until `end` is free again once `end` is reached (when no
/// hold ends earlier), and it is the index the next pull hands out when it is
/// the largest free one.
pub proof fn lemma_release_then_reuse(m: IndexModel, end: u32)
    requires
        m.wf(),
        m.free.len() > 0 || m.names < u32::MAX,
        holds_reach(m.holds, end),
    ensures
        m.pull(end).push_until(end).free.contains(m.next_pulled()),
        !m.pull(end).push_until(end).is_held(m.next_pulled()),
        m.pull(end).push_until(end).wf(),
{
    let n = m.next_pulled();
    lemma_pull_is_exclusive(m, end);
    let p = m.pull(end);
    assert(holds_reach(p.holds, end)) by {
        assert forall|h: (u32, u32)| p.holds.contains(h) implies h.1 >= end by {
            if h != (n, end) {
                assert(m.holds.contains(h));
            }
        }
    }
    lemma_released_count(p.holds, end, n);
    assert(p.holds.contains((n, end)));
    lemma_push_until_keeps_wf(p, end);
    let q = p.push_until(end);
    assert(q.free.contains(n));
}

/// Reviving a free index, forgetting free indices, and raising the count of
/// created indices all keep the state invariant.
pub proof fn lemma_other_operations_keep_wf(m: IndexModel, n: u32, until: u32, last: u32, names: u32)
    requires
        m.wf(),
        names >= m.names,
    ensures
        m.free.contains(n) ==> m.revive(n, until).wf(),
        (IndexModel { free: m.free.filter(below(last)), ..m }).wf(),
        (IndexModel { names, ..m }).wf(),
{
    if m.free.contains(n) {
        let r = m.revive(n, until);
        assert(!m.is_held(n)) by {
            if m.is_held(n) {
                let u = choose|u: u32| m.holds.contains((n, u));
            }
        }
        assert forall|k: u32, u: u32| #[trigger] r.holds.count((k, u)) <= 1 by {
            if (k, u) == (n, until) && m.holds.count((k, u)) > 0 {
                assert(m.holds.contains((n, until)));
            }
        }
        assert forall|k: u32, u: u32, v: u32|
            r.holds.contains((k, u)) && r.holds.contains((k, v)) implies u == v by {
            if k == n {
                if u != until {
                    assert(m.holds.contains((n, u)));
                }
                if v != until {
                    assert(m.holds.contains((n, v)));
                }
            } else {
                assert(m.holds.contains((k, u)) && m.holds.contains((k, v)));
            }
        }
        assert forall|k: u32, u: u32| r.holds.contains((k, u)) implies !r.free.contains(k) by {
            if k != n {
                assert(m.holds.contains((k, u)));
            } else {
                assert(m.free.count(n) <= 1);
            }
        }
        assert forall|k: u32, u: u32| r.holds.contains((k, u)) implies k < r.names by {
            if k != n {
                assert(m.holds.contains((k, u)));
            }
        }
        assert forall|k: u32| #[trigger] r.free.count(k) <= 1 by {
            assert(r.free.count(k) <= m.free.count(k));
        }
        assert forall|k: u32| r.free.contains(k) implies k < r.names by {
            assert(r.free.count(k) <= m.free.count(k));
            assert(m.free.contains(k));
        }
    }
    let f = IndexModel { free: m.free.filter(below(last)), ..m };
    assert forall|k: u32| #[trigger] f.free.count(k) <= 1 by {
        assert(f.free.count(k) <= m.free.count(k));
    }
    assert forall|k: u32| f.free.contains(k) implies k < f.names by {
        assert(f.free.count(k) <= m.free.count(k));
        assert(m.free.contains(k));
    }
    assert forall|k: u32, u: u32| f.holds.contains((k, u)) implies !f.free.contains(k) by {
        assert(f.free.count(k) <= m.free.count(k));
    }
}

/// A nonempty multiset of indices has a largest element.
pub proof fn lemma_largest_exists(m: Multiset<u32>)
    requires
        m.len() > 0,
    ensures
        is_largest(m, largest(m)),
    decreases m.len(),
{
    let x = m.choose();
    assert(m.count(x) > 0);
    let rest = m.remove(x);
    if rest.len() == 0 {
        assert forall|y: u32| m.contains(y) implies y <= x by {
            if y != x {
                assert(rest.count(y) == m.count(y));
            }
        }
        assert(is_largest(m, x));
    } else {
        lemma_largest_exists(rest);
        let r = largest(rest);
        let top = if r <= x { x } else { r };
        assert forall|y: u32| m.contains(y) implies y <= top by {
            if y != x {
                assert(rest.count(y) == m.count(y));
                assert(rest.contains(y));
                assert(y <= r);
            }
        }
        assert(m.contains(top)) by {
            if top == r {
                assert(rest.count(r) <= m.count(r));
            }
        }
        assert(is_largest(m, top));
    }
}

/// Appending to a sequence adds the new element to the filtered multiset
/// exactly when the filter keeps it.
pub proof fn lemma_filter_push<T>(s: Seq<T>, a: T, p: spec_fn(T) -> bool)
    ensures
        s.push(a).to_multiset().filter(p) == (if p(a) {
            s.to_multiset().filter(p).insert(a)
        } else {
            s.to_multiset().filter(p)
        }),
{
    assert(s.push(a).to_multiset() =~= s.to_multiset().insert(a));
    if p(a) {
        assert(s.push(a).to_multiset().filter(p) =~= s.to_multiset().filter(p).insert(a));
    } else {
        assert(s.push(a).to_multiset().filter(p) =~= s.to_multiset().filter(p));
    }
}

/// Hands out local indices, recycling those whose holds have ended.
pub struct IndexProvider {
    holds: Vec<(u32, u32)>,
    free: Vec<u32>,
    names: u32,
}

impl View for IndexProvider {
    type V = IndexModel;

    closed spec fn view(&self) -> IndexModel {
        IndexModel {
            holds: self.holds@.to_multiset(),
            free: self.free@.to_multiset(),
            names: self.names,
        }
    }
}

impl IndexProvider {
    /// Creates a provider with nothing held, nothing free and no index created.
    pub fn new() -> (provider: Self)
        ensures
            provider@ == IndexModel::empty(),
            provider@.wf(),
    {
        let provider = IndexProvider { holds: Vec::new(), free: Vec::new(), names: 0 };
        assert(provider.holds@ =~= Seq::<(u32, u32)>::empty());
        assert(provider.free@ =~= Seq::<u32>::empty());
        assert(provider@.holds =~= Multiset::<(u32, u32)>::empty());
        assert(provider@.free =~= Multiset::<u32>::empty());
        provider
    }

    /// Whether the next pull must create a new index (nothing is free).
    pub fn should_create(&self) -> (create: bool)
        ensures
            create == (self@.free.len() == 0),
    {
        self.free.len() == 0
    }

    /// Whether the next pull must create a new index while at least `count`
    /// indices are already held.
    pub fn should_exceed(&self, count: usize) -> (exceed: bool)
        ensures
            exceed == (self@.free.len() == 0 && self@.holds.len() >= count),
    {
        self.should_create() && self.holds.len() >= count
    }

    /// The count of indices created so far.
    pub fn get_names(&self) -> (names: u32)
        ensures
            names == self@.names,
    {
        self.names
    }

    /// Sets the count of indices created so far.
    pub fn set_names(&mut self, names: u32)
        ensures
            final(self)@ == (IndexModel { names, ..old(self)@ }),
    {
        self.names = names;
    }

    /// Forgets every free index that is not below `last`.
    pub fn forget_free(&mut self, last: u32)
        ensures
            final(self)@ == (IndexModel {
                free: old(self)@.free.filter(below(last)),
                ..old(self)@
            }),
    {
        let mut kept: Vec<u32> = Vec::new();
        let mut i: usize = 0;
        while i < self.free.len()
            invariant
                i <= self.free.len(),
                self.free@ == old(self).free@,
                self.holds@ == old(self).holds@,
                self.names == old(self).names,
                kept@.to_multiset() == self.free@.take(i as int).to_multiset().filter(below(last)),
            decreases self.free.len() - i,
        {
            let n = self.free[i];
            let ghost before = self.free@.take(i as int);
            proof {
                assert(self.free@.take(i + 1) =~= before.push(n));
                lemma_filter_push(before, n, below(last));
            }
            if n < last {
                assert(below(last)(n));
                kept.push(n);
                assert(kept@.to_multiset() == before.to_multiset().filter(below(last)).insert(n));
            } else {
                assert(!below(last)(n));
            }
            i = i + 1;
        }
        assert(self.free@.take(i as int) =~= self.free@);
        self.free = kept;
    }

    /// Hands out the largest free index, or a new one when none is free, and
    /// holds it until `until`.
    pub fn pull(&mut self, until: u32) -> (name: u32)
        requires
            old(self)@.can_pull(),
        ensures
            name == old(self)@.next_pulled(),
            final(self)@ == old(self)@.pull(until),
    {
        let name;
        if self.free.len() == 0 {
            name = self.names;
            self.names = name + 1;
        } else {
            let mut best: usize = 0;
            let mut i: usize = 1;
            while i < self.free.len()
                invariant
                    0 < self.free.len(),
                    best < i <= self.free.len(),
                    forall|j: int| 0 <= j < i ==> self.free@[j] <= self.free@[best as int],
                decreases self.free.len() - i,
            {
                if self.free[i] > self.free[best] {
                    best = i;
                }
                i = i + 1;
            }
            proof {
                let m = self.free@.to_multiset();
                let top = self.free@[best as int];
                assert(self.free@.contains(top));
                assert forall|y: u32| m.contains(y) implies y <= top by {
                    assert(self.free@.contains(y));
                    let j = choose|j: int| 0 <= j < self.free@.len() && self.free@[j] == y;
                    assert(self.free@[j] <= top);
                }
                assert(is_largest(m, top));
                let c = largest(m);
                assert(is_largest(m, c));
                assert(c <= top && top <= c);
            }
            name = self.free.remove(best);
        }
        self.holds.push((name, until));
        name
    }

    /// Holds the free index `name` again until `until`; reports whether it was free.
    pub fn try_revive(&mut self, name: u32, until: u32) -> (revived: bool)
        ensures
            revived == old(self)@.free.contains(name),
            final(self)@ == if revived {
                old(self)@.revive(name, until)
            } else {
                old(self)@
            },
    {
        let mut i: usize = 0;
        while i < self.free.len()
            invariant
                i <= self.free.len(),
                forall|j: int| 0 <= j < i ==> self.free@[j] != name,
                self.free@ == old(self).free@,
                self.holds@ == old(self).holds@,
                self.names == old(self).names,
            decreases self.free.len() - i,
        {
            if self.free[i] == name {
                self.free.remove(i);
                self.holds.push((name, until));
                return true;
            }
            i = i + 1;
        }
        assert(!self.free@.contains(name));
        false
    }

    /// Reaches the program point `end`: when no hold ends before it, every
    /// index held until exactly `end` becomes free.
    pub fn push_until(&mut self, end: u32)
        ensures
            final(self)@ == old(self)@.push_until(end),
    {
        let mut i: usize = 0;
        while i < self.holds.len()
            invariant
                i <= self.holds.len(),
                forall|j: int| 0 <= j < i ==> self.holds@[j].1 >= end,
                self.free@ == old(self).free@,
                self.holds@ == old(self).holds@,
                self.names == old(self).names,
            decreases self.holds.len() - i,
        {
            if self.holds[i].1 < end {
                assert(self.holds@.to_multiset().contains(self.holds@[i as int]));
                return;
            }
            i = i + 1;
        }
        assert(holds_reach(self@.holds, end)) by {
            assert forall|h: (u32, u32)| self@.holds.contains(h) implies h.1 >= end by {
                assert(self.holds@.contains(h));
            }
        }
        let ghost old_free = self.free@.to_multiset();
        let ghost all = self.holds@;
        let mut kept: Vec<(u32, u32)> = Vec::new();
        let mut k: usize = 0;
        while k < self.holds.len()
            invariant
                k <= self.holds.len(),
                self.holds@ == all,
                self.names == old(self).names,
                kept@.to_multiset() == all.take(k as int).to_multiset().filter(not_ending_at(end)),
                forall|n: u32|
                    #[trigger] self.free@.to_multiset().count(n) == old_free.count(n)
                        + all.take(k as int).to_multiset().count((n, end)),
            decreases self.holds.len() - k,
        {
            let h = self.holds[k];
            let ghost before = all.take(k as int);
            proof {
                assert(all.take(k + 1) =~= before.push(h));
                lemma_filter_push(before, h, not_ending_at(end));
            }
            if h.1 != end {
                kept.push(h);
            } else {
                self.free.push(h.0);
            }
            k = k + 1;
        }
        assert(all.take(k as int) =~= all);
        self.holds = kept;
        proof {
            assert forall|n: u32| #[trigger] self@.free.count(n) == old_free.add(released(all.to_multiset(), end)).count(n) by {
                lemma_released_count(all.to_multiset(), end, n);
            }
            assert(self@.free =~= old_free.add(released(all.to_multiset(), end)));
        }
    }
}

} // verus!
