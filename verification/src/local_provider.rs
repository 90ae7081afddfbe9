//! Places for the values of a Luau function's nodes, by output link: each
//! value is held until the last point that reads it, and a value passed on
//! into a region keeps its old place whenever that place is free.

use vstd::prelude::*;

use crate::ir::Link;
use crate::place::Place;
use crate::scoped_provider::{ScopedModel, ScopedProvider};

verus! {

/// A `hashbrown::HashMap` from output links to the last point that reads them.
#[verifier::external_body]
pub struct LinkLifetimes {
    map: hashbrown::HashMap<Link, u32>,
}

/// The entries of a [`LinkLifetimes`].
pub uninterp spec fn lifetimes_of(lifetimes: LinkLifetimes) -> Map<Link, u32>;

impl LinkLifetimes {
    /// An empty map.
    ///
    /// Calls `hashbrown::HashMap::new`, which creates a map with no entries.
    #[verifier::external_body]
    pub fn new() -> (lifetimes: Self)
        ensures
            lifetimes_of(lifetimes).dom() == Set::<Link>::empty(),
    {
        LinkLifetimes { map: hashbrown::HashMap::new() }
    }

    /// The lifetime recorded for `link`, if any.
    ///
    /// Calls `hashbrown::HashMap::get`, which returns the value stored under
    /// the key, or `None` when there is none.
    #[verifier::external_body]
    pub fn get(&self, link: Link) -> (until: Option<u32>)
        ensures
            until == (if lifetimes_of(*self).contains_key(link) {
                Some(lifetimes_of(*self)[link])
            } else {
                None
            }),
    {
        self.map.get(&link).copied()
    }

    /// Removes every lifetime.
    ///
    /// Calls `hashbrown::HashMap::clear`, which removes every entry.
    #[verifier::external_body]
    pub fn clear(&mut self)
        ensures
            lifetimes_of(*final(self)).dom() == Set::<Link>::empty(),
    {
        self.map.clear();
    }

    /// Records the lifetime of `link`, replacing any earlier one.
    ///
    /// Calls `hashbrown::HashMap::insert`, which stores the value under the
    /// key, replacing the value of an equal key already present.
    #[verifier::external_body]
    pub fn insert(&mut self, link: Link, until: u32)
        ensures
            lifetimes_of(*final(self)) == lifetimes_of(*old(self)).insert(link, until),
    {
        self.map.insert(link, until);
    }
}

/// A `hashbrown::HashMap` from output links to the places of their values.
#[verifier::external_body]
pub struct LinkPlaces {
    map: hashbrown::HashMap<Link, Place>,
}

/// The entries of a [`LinkPlaces`].
pub uninterp spec fn places_of(places: LinkPlaces) -> Map<Link, Place>;

impl LinkPlaces {
    /// An empty map.
    ///
    /// Calls `hashbrown::HashMap::new`, which creates a map with no entries.
    #[verifier::external_body]
    pub fn new() -> (places: Self)
        ensures
            places_of(places).dom() == Set::<Link>::empty(),
    {
        LinkPlaces { map: hashbrown::HashMap::new() }
    }

    /// The place recorded for `link`, if any.
    ///
    /// Calls `hashbrown::HashMap::get`, which returns the value stored under
    /// the key, or `None` when there is none.
    #[verifier::external_body]
    pub fn get(&self, link: Link) -> (place: Option<Place>)
        ensures
            place == (if places_of(*self).contains_key(link) {
                Some(places_of(*self)[link])
            } else {
                None
            }),
    {
        self.map.get(&link).copied()
    }

    /// Whether a place is recorded for `link`.
    ///
    /// Calls `hashbrown::HashMap::contains_key`, which reports whether the
    /// map holds an equal key.
    #[verifier::external_body]
    pub fn contains_key(&self, link: Link) -> (found: bool)
        ensures
            found == places_of(*self).contains_key(link),
    {
        self.map.contains_key(&link)
    }

    /// Records the place of `link`, replacing any earlier one.
    ///
    /// Calls `hashbrown::HashMap::insert`, which stores the value under the
    /// key, replacing the value of an equal key already present.
    #[verifier::external_body]
    pub fn insert(&mut self, link: Link, place: Place)
        ensures
            places_of(*final(self)) == places_of(*old(self)).insert(link, place),
    {
        self.map.insert(link, place);
    }
}

/// The point until which the value of `link` lives: its recorded lifetime,
/// or else just past the node that produces it.
pub open spec fn lifetime(lifetimes: Map<Link, u32>, link: Link) -> int {
    if lifetimes.contains_key(link) {
        lifetimes[link] as int
    } else {
        link.node + 1
    }
}

/// Output `port` of node `node`.
pub open spec fn output_link(node: u32, port: int) -> Link {
    Link { node, port: port as u16 }
}

/// The lifetimes of the first `count` outputs of node `to` fit a `u32`.
pub open spec fn outputs_fit(lifetimes: Map<Link, u32>, to: u32, count: nat) -> bool {
    forall|k: int| 0 <= k < count ==> #[trigger] lifetime(lifetimes, output_link(to, k)) <= u32::MAX
}

/// Whether `link` can get a place in the state `s`.
pub open spec fn can_pull_link(s: ScopedModel, lifetimes: Map<Link, u32>, link: Link) -> bool {
    &&& s.functions.len() > 0
    &&& s.current().can_pull()
    &&& lifetime(lifetimes, link) <= u32::MAX
}

/// The state after giving `link` a place.
pub open spec fn pull_link(s: ScopedModel, lifetimes: Map<Link, u32>, link: Link) -> ScopedModel {
    s.with_current(s.current().pull(lifetime(lifetimes, link) as u32))
}

/// The place `link` gets in the state `s`.
pub open spec fn pulled_place(s: ScopedModel) -> Place {
    s.current().pulled()
}

/// Giving places to outputs `start .. start + k` of node `to`, in order.
pub open spec fn pull_range(
    s: ScopedModel,
    lifetimes: Map<Link, u32>,
    to: u32,
    start: u16,
    k: nat,
    locals: Map<Link, Place>,
    only_missing: bool,
) -> (ScopedModel, Map<Link, Place>)
    decreases k,
{
    if k == 0 {
        (s, locals)
    } else {
        let (s1, l1) = pull_range(s, lifetimes, to, start, (k - 1) as nat, locals, only_missing);
        let link = Link { node: to, port: (start + k - 1) as u16 };
        if only_missing && l1.contains_key(link) {
            (s1, l1)
        } else {
            (pull_link(s1, lifetimes, link), l1.insert(link, pulled_place(s1)))
        }
    }
}

/// Whether every output `start .. start + k` of node `to` can get a place.
pub open spec fn can_pull_range(
    s: ScopedModel,
    lifetimes: Map<Link, u32>,
    to: u32,
    start: u16,
    k: nat,
    locals: Map<Link, Place>,
    only_missing: bool,
) -> bool
    decreases k,
{
    if k == 0 {
        true
    } else {
        let (s1, l1) = pull_range(s, lifetimes, to, start, (k - 1) as nat, locals, only_missing);
        let link = Link { node: to, port: (start + k - 1) as u16 };
        &&& can_pull_range(s, lifetimes, to, start, (k - 1) as nat, locals, only_missing)
        &&& (only_missing && l1.contains_key(link) || can_pull_link(s1, lifetimes, link))
    }
}

/// A revived place is no longer a definition: the local already exists.
pub open spec fn as_revived(place: Place) -> Place {
    match place {
        Place::Definition { name } => Place::Assignment { name },
        _ => place,
    }
}

/// Trying to keep, for the first `k` inputs `from` passed to node `to`, the
/// place of the input for the corresponding output of `to`.
pub open spec fn revive_range(
    s: ScopedModel,
    lifetimes: Map<Link, u32>,
    from: Seq<Link>,
    to: u32,
    k: int,
    locals: Map<Link, Place>,
) -> (ScopedModel, Map<Link, Place>)
    decreases k,
{
    if k <= 0 || k > from.len() {
        (s, locals)
    } else {
        let (s1, l1) = revive_range(s, lifetimes, from, to, k - 1, locals);
        let target = Link { node: to, port: (k - 1) as u16 };
        let source = from[k - 1];
        if l1.contains_key(source) && s1.current().can_revive(l1[source]) {
            (
                s1.with_current(s1.current().revive(l1[source], lifetime(lifetimes, target) as u32)),
                l1.insert(target, as_revived(l1[source])),
            )
        } else {
            (s1, l1)
        }
    }
}

/// The abstract state of a [`LocalProvider`]: the lifetimes of output links
/// and the scoped places.
pub struct LocalModel {
    pub lifetimes: Map<Link, u32>,
    pub scoped: ScopedModel,
}

/// Hands out places for the output links of a function's nodes.
pub struct LocalProvider {
    lifetimes: LinkLifetimes,
    provider: ScopedProvider,
}

impl View for LocalProvider {
    type V = LocalModel;

    closed spec fn view(&self) -> LocalModel {
        LocalModel { lifetimes: lifetimes_of(self.lifetimes), scoped: self.provider@ }
    }
}

impl LocalProvider {
    /// A provider with no lifetimes and no function open.
    pub fn new() -> (provider: Self)
        ensures
            provider@.lifetimes.dom() == Set::<Link>::empty(),
            provider@.scoped.functions.len() == 0,
            provider@.scoped.first_names.len() == 0,
    {
        LocalProvider { lifetimes: LinkLifetimes::new(), provider: ScopedProvider::new() }
    }

    /// The lifetimes, for the caller to fill in.
    pub fn lifetimes_mut(&mut self) -> (lifetimes: &mut LinkLifetimes)
        ensures
            lifetimes_of(*lifetimes) == old(self)@.lifetimes,
            final(self)@.lifetimes == lifetimes_of(*final(lifetimes)),
            final(self)@.scoped == old(self)@.scoped,
    {
        &mut self.lifetimes
    }

    /// Closes the innermost block scope.
    pub fn pop_local_scope(&mut self)
        requires
            old(self)@.scoped.functions.len() > 0,
            old(self)@.scoped.first_names.len() > 0,
        ensures
            final(self)@ == (LocalModel { scoped: old(self)@.scoped.pop_local_scope(), ..old(self)@ }),
    {
        self.provider.pop_local_scope();
    }

    /// Opens a block scope in the innermost function.
    pub fn push_local_scope(&mut self)
        requires
            old(self)@.scoped.functions.len() > 0,
        ensures
            final(self)@ == (LocalModel { scoped: old(self)@.scoped.push_local_scope(), ..old(self)@ }),
    {
        self.provider.push_local_scope();
    }

    /// Closes the innermost function; returns its overflow table, if any.
    pub fn pop_function_scope(&mut self) -> (table: Option<(crate::place::Name, u32)>)
        requires
            old(self)@.scoped.functions.len() > 0,
        ensures
            table == old(self)@.scoped.current().table.created_table(),
            final(self)@ == (LocalModel { scoped: old(self)@.scoped.pop_function_scope(), ..old(self)@ }),
    {
        self.provider.pop_function_scope()
    }

    /// Opens a nested function.
    pub fn push_function_scope(&mut self)
        ensures
            final(self)@ == (LocalModel { scoped: old(self)@.scoped.push_function_scope(), ..old(self)@ }),
    {
        self.provider.push_function_scope();
    }

    /// The point until which the value of `link` lives.
    fn get_lifetime(&self, link: Link) -> (until: u32)
        requires
            lifetime(self@.lifetimes, link) <= u32::MAX,
        ensures
            until == lifetime(self@.lifetimes, link),
    {
        match self.lifetimes.get(link) {
            Some(until) => until,
            None => link.node + 1,
        }
    }

    /// Gives `link` a place held until its lifetime ends.
    fn pull(&mut self, link: Link) -> (place: Place)
        requires
            can_pull_link(old(self)@.scoped, old(self)@.lifetimes, link),
        ensures
            place == pulled_place(old(self)@.scoped),
            final(self)@ == (LocalModel {
                scoped: pull_link(old(self)@.scoped, old(self)@.lifetimes, link),
                ..old(self)@
            }),
    {
        let until = self.get_lifetime(link);
        self.provider.pull(until)
    }

    /// Gives each output `from` of node `to` a new place, recording it in `locals`.
    pub fn pull_all_into(&mut self, from: core::ops::Range<u16>, to: u32, locals: &mut LinkPlaces)
        requires
            can_pull_range(
                old(self)@.scoped,
                old(self)@.lifetimes,
                to,
                from.start,
                (if from.end > from.start { from.end - from.start } else { 0 }) as nat,
                places_of(*old(locals)),
                false,
            ),
        ensures
            ({
                let (s, l) = pull_range(
                    old(self)@.scoped,
                    old(self)@.lifetimes,
                    to,
                    from.start,
                    (if from.end > from.start { from.end - from.start } else { 0 }) as nat,
                    places_of(*old(locals)),
                    false,
                );
                &&& final(self)@ == (LocalModel { scoped: s, ..old(self)@ })
                &&& places_of(*final(locals)) == l
            }),
    {
        self.pull_range_into(from.start, from.end, to, locals, false);
    }

    /// Gives each output `start .. end` of node `to` a new place — only those
    /// without one when `only_missing` — recording it in `locals`.
    fn pull_range_into(&mut self, start: u16, end: u16, to: u32, locals: &mut LinkPlaces, only_missing: bool)
        requires
            can_pull_range(
                old(self)@.scoped,
                old(self)@.lifetimes,
                to,
                start,
                (if end > start { end - start } else { 0 }) as nat,
                places_of(*old(locals)),
                only_missing,
            ),
        ensures
            ({
                let (s, l) = pull_range(
                    old(self)@.scoped,
                    old(self)@.lifetimes,
                    to,
                    start,
                    (if end > start { end - start } else { 0 }) as nat,
                    places_of(*old(locals)),
                    only_missing,
                );
                &&& final(self)@ == (LocalModel { scoped: s, ..old(self)@ })
                &&& places_of(*final(locals)) == l
            }),
    {
        if start >= end {
            return;
        }
        let total: Ghost<nat> = Ghost((end - start) as nat);
        let mut port = start;
        while port < end
            invariant
                start <= port <= end,
                total@ == (end - start) as nat,
                can_pull_range(
                    old(self)@.scoped,
                    old(self)@.lifetimes,
                    to,
                    start,
                    total@,
                    places_of(*old(locals)),
                    only_missing,
                ),
                ({
                    let (s, l) = pull_range(
                        old(self)@.scoped,
                        old(self)@.lifetimes,
                        to,
                        start,
                        (port - start) as nat,
                        places_of(*old(locals)),
                        only_missing,
                    );
                    &&& self@ == (LocalModel { scoped: s, ..old(self)@ })
                    &&& places_of(*locals) == l
                }),
            decreases end - port,
        {
            let link = Link { node: to, port };
            proof {
                lemma_can_pull_range_prefix(
                    old(self)@.scoped,
                    old(self)@.lifetimes,
                    to,
                    start,
                    total@,
                    (port - start + 1) as nat,
                    places_of(*old(locals)),
                    only_missing,
                );
            }
            if !only_missing || !locals.contains_key(link) {
                let place = self.pull(link);
                locals.insert(link, place);
            }
            port = port + 1;
        }
    }

    /// Holds `place` again for `link`, if it is free: as an assignment when
    /// it was a definition, since the local already exists.
    fn try_revive(&mut self, link: Link, place: Place) -> (revived: Option<Place>)
        requires
            old(self)@.scoped.functions.len() > 0,
            lifetime(old(self)@.lifetimes, link) <= u32::MAX,
        ensures
            revived.is_some() == old(self)@.scoped.current().can_revive(place),
            revived.is_some() ==> revived.unwrap() == as_revived(place),
            final(self)@ == if revived.is_some() {
                LocalModel {
                    scoped: old(self)@.scoped.with_current(
                        old(self)@.scoped.current().revive(place, lifetime(old(self)@.lifetimes, link) as u32),
                    ),
                    ..old(self)@
                }
            } else {
                old(self)@
            },
    {
        let until = self.get_lifetime(link);
        if self.provider.try_revive(place, until) {
            Some(match place {
                Place::Definition { name } => Place::Assignment { name },
                _ => place,
            })
        } else {
            None
        }
    }

    /// For each input `from[k]` passed to node `to`, keeps the input's place
    /// for output `k` of `to` when that place is free.
    pub fn try_revive_all_into(&mut self, from: &[Link], to: u32, locals: &mut LinkPlaces)
        requires
            old(self)@.scoped.functions.len() > 0,
            from@.len() <= u16::MAX,
            outputs_fit(old(self)@.lifetimes, to, from@.len()),
        ensures
            ({
                let (s, l) = revive_range(
                    old(self)@.scoped,
                    old(self)@.lifetimes,
                    from@,
                    to,
                    from@.len() as int,
                    places_of(*old(locals)),
                );
                &&& final(self)@ == (LocalModel { scoped: s, ..old(self)@ })
                &&& places_of(*final(locals)) == l
            }),
            final(self)@.scoped.functions.len() == old(self)@.scoped.functions.len(),
    {
        let mut k: usize = 0;
        while k < from.len()
            invariant
                k <= from@.len(),
                from@.len() <= u16::MAX,
                old(self)@.scoped.functions.len() > 0,
                outputs_fit(old(self)@.lifetimes, to, from@.len()),
                ({
                    let (s, l) = revive_range(
                        old(self)@.scoped,
                        old(self)@.lifetimes,
                        from@,
                        to,
                        k as int,
                        places_of(*old(locals)),
                    );
                    &&& self@ == (LocalModel { scoped: s, ..old(self)@ })
                    &&& places_of(*locals) == l
                }),
                self@.scoped.functions.len() == old(self)@.scoped.functions.len(),
            decreases from.len() - k,
        {
            let target = Link { node: to, port: k as u16 };
            let source = from[k];
            assert(lifetime(old(self)@.lifetimes, output_link(to, k as int)) <= u32::MAX);
            assert(output_link(to, k as int) == target);
            match locals.get(source) {
                Some(place) => {
                    match self.try_revive(target, place) {
                        Some(revived) => {
                            locals.insert(target, revived);
                        },
                        None => {},
                    }
                },
                None => {},
            }
            k = k + 1;
        }
    }

    /// Gives each output `from` of node `to` that has no place yet a new one.
    fn try_pull_all_into(&mut self, from: core::ops::Range<u16>, to: u32, locals: &mut LinkPlaces)
        requires
            can_pull_range(
                old(self)@.scoped,
                old(self)@.lifetimes,
                to,
                from.start,
                (if from.end > from.start { from.end - from.start } else { 0 }) as nat,
                places_of(*old(locals)),
                true,
            ),
        ensures
            ({
                let (s, l) = pull_range(
                    old(self)@.scoped,
                    old(self)@.lifetimes,
                    to,
                    from.start,
                    (if from.end > from.start { from.end - from.start } else { 0 }) as nat,
                    places_of(*old(locals)),
                    true,
                );
                &&& final(self)@ == (LocalModel { scoped: s, ..old(self)@ })
                &&& places_of(*final(locals)) == l
            }),
    {
        self.pull_range_into(from.start, from.end, to, locals, true);
    }

    /// Places for the outputs of node `to`, which receive the inputs `from`:
    /// each output first tries to keep its input's place, so no move is
    /// needed; the others get new places.
    pub fn revive_all_into(&mut self, from: &[Link], to: u32, locals: &mut LinkPlaces)
        requires
            old(self)@.scoped.functions.len() > 0,
            from@.len() <= u16::MAX,
            outputs_fit(old(self)@.lifetimes, to, from@.len()),
            ({
                let (s, l) = revive_range(
                    old(self)@.scoped,
                    old(self)@.lifetimes,
                    from@,
                    to,
                    from@.len() as int,
                    places_of(*old(locals)),
                );
                can_pull_range(s, old(self)@.lifetimes, to, 0, from@.len(), l, true)
            }),
        ensures
            ({
                let (s1, l1) = revive_range(
                    old(self)@.scoped,
                    old(self)@.lifetimes,
                    from@,
                    to,
                    from@.len() as int,
                    places_of(*old(locals)),
                );
                let (s2, l2) = pull_range(s1, old(self)@.lifetimes, to, 0, from@.len(), l1, true);
                &&& final(self)@ == (LocalModel { scoped: s2, ..old(self)@ })
                &&& places_of(*final(locals)) == l2
            }),
    {
        let count = from.len() as u16;
        self.try_revive_all_into(from, to, locals);
        self.try_pull_all_into(0..count, to, locals);
    }

    /// Reaches the program point `end` in the innermost function.
    pub fn push_until(&mut self, end: u32)
        requires
            old(self)@.scoped.functions.len() > 0,
        ensures
            final(self)@ == (LocalModel {
                scoped: old(self)@.scoped.with_current(old(self)@.scoped.current().push_until(end)),
                ..old(self)@
            }),
    {
        self.provider.push_until(end);
    }
}

/// After giving places to a range of outputs, every output of the range has
/// one, and every link that had a place still has one.
pub proof fn lemma_pull_range_covers(
    s: ScopedModel,
    lifetimes: Map<Link, u32>,
    to: u32,
    start: u16,
    k: nat,
    locals: Map<Link, Place>,
    only_missing: bool,
)
    requires
        start + k <= u16::MAX + 1,
    ensures
        forall|p: int| 0 <= p < k ==> #[trigger] pull_range(s, lifetimes, to, start, k, locals, only_missing).1.contains_key(
            output_link(to, start + p),
        ),
        forall|l: Link| locals.contains_key(l) ==> #[trigger] pull_range(s, lifetimes, to, start, k, locals, only_missing).1.contains_key(l),
    decreases k,
{
    if k > 0 {
        lemma_pull_range_covers(s, lifetimes, to, start, (k - 1) as nat, locals, only_missing);
        let r = pull_range(s, lifetimes, to, start, k, locals, only_missing).1;
        let prev = pull_range(s, lifetimes, to, start, (k - 1) as nat, locals, only_missing).1;
        assert forall|p: int| 0 <= p < k implies #[trigger] r.contains_key(output_link(to, start + p)) by {
            if p < k - 1 {
                assert(prev.contains_key(output_link(to, start + p)));
            } else {
                assert(output_link(to, start + p) == Link { node: to, port: (start + k - 1) as u16 });
            }
        }
    }
}

/// Passing values into node `to` leaves every output of `to` with a place:
/// either its input's place, kept, or a new one.
pub proof fn lemma_revive_all_gives_every_output_a_place(
    s: ScopedModel,
    lifetimes: Map<Link, u32>,
    from: Seq<Link>,
    to: u32,
    locals: Map<Link, Place>,
)
    requires
        from.len() <= u16::MAX,
    ensures
        ({
            let (s1, l1) = revive_range(s, lifetimes, from, to, from.len() as int, locals);
            let (s2, l2) = pull_range(s1, lifetimes, to, 0, from.len(), l1, true);
            forall|k: int| 0 <= k < from.len() ==> #[trigger] l2.contains_key(output_link(to, k))
        }),
{
    let (s1, l1) = revive_range(s, lifetimes, from, to, from.len() as int, locals);
    lemma_pull_range_covers(s1, lifetimes, to, 0, from.len(), l1, true);
    let l2 = pull_range(s1, lifetimes, to, 0, from.len(), l1, true).1;
    assert forall|k: int| 0 <= k < from.len() implies #[trigger] l2.contains_key(output_link(to, k)) by {
        assert(l2.contains_key(output_link(to, 0 + k)));
    }
}

/// Pulling a prefix of a range that can be pulled whole is possible too.
pub proof fn lemma_can_pull_range_prefix(
    s: ScopedModel,
    lifetimes: Map<Link, u32>,
    to: u32,
    start: u16,
    k: nat,
    j: nat,
    locals: Map<Link, Place>,
    only_missing: bool,
)
    requires
        can_pull_range(s, lifetimes, to, start, k, locals, only_missing),
        j <= k,
    ensures
        can_pull_range(s, lifetimes, to, start, j, locals, only_missing),
    decreases k,
{
    if j < k {
        lemma_can_pull_range_prefix(s, lifetimes, to, start, (k - 1) as nat, j, locals, only_missing);
    }
}

} // verus!
