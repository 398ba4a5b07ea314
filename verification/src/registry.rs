//! The networks that can be reached, each with its pool of providers.

use crate::capabilities::NodeCapabilities;
use crate::error::{NetworkError, RoutingError};
use crate::pool::{
    filter_push, serves, share, sorted_from, sufficient, EthereumNetworkAdapter,
    EthereumNetworkAdapters,
};
use crate::retry::{performed, AttemptOutcome, CallError};
use std::sync::Arc;
use vstd::prelude::*;

verus! {

/// The registry of networks. It maps each network name to the pool of that
/// network's providers and remembers the order in which the names were first
/// registered. It is filled while the node starts up, sorted once, and only
/// read from then on.
pub struct EthereumNetworks<A: ?Sized> {
    networks: Vec<(String, EthereumNetworkAdapters<A>)>,
}

/// A list of named pools in which no name occurs twice.
spec fn distinct<A: ?Sized>(list: Seq<(Seq<char>, Seq<EthereumNetworkAdapter<A>>)>) -> bool {
    forall|i: int, j: int|
        #![trigger list[i], list[j]]
        0 <= i < j < list.len() ==> list[i].0 != list[j].0
}

/// The map that a list of named pools stands for. Where a name occurs more
/// than once, its last pool counts.
spec fn listed<A: ?Sized>(list: Seq<(Seq<char>, Seq<EthereumNetworkAdapter<A>>)>) -> Map<
    Seq<char>,
    Seq<EthereumNetworkAdapter<A>>,
>
    decreases list.len(),
{
    if list.len() == 0 {
        Map::empty()
    } else {
        listed(list.drop_last()).insert(list.last().0, list.last().1)
    }
}

/// The names of a list of named pools, in order.
spec fn names_of<A: ?Sized>(list: Seq<(Seq<char>, Seq<EthereumNetworkAdapter<A>>)>) -> Seq<
    Seq<char>,
> {
    Seq::new(list.len(), |i: int| list[i].0)
}

/// What a vector of named pools holds, each name and pool by its view.
spec fn model_of<A: ?Sized>(networks: Seq<(String, EthereumNetworkAdapters<A>)>) -> Seq<
    (Seq<char>, Seq<EthereumNetworkAdapter<A>>),
> {
    Seq::new(networks.len(), |i: int| (networks[i].0@, networks[i].1@))
}

/// The map of a list knows exactly the names of the list.
proof fn listed_names<A: ?Sized>(list: Seq<(Seq<char>, Seq<EthereumNetworkAdapter<A>>)>)
    ensures
        forall|name: Seq<char>| #[trigger]
            listed(list).contains_key(name) <==> names_of(list).contains(name),
    decreases list.len(),
{
    if list.len() > 0 {
        let rest = list.drop_last();
        let last = list.len() - 1;
        listed_names(rest);
        assert(names_of(rest).len() == rest.len());
        assert(names_of(list).len() == list.len());
        assert forall|name: Seq<char>| #[trigger]
            listed(list).contains_key(name) implies names_of(list).contains(name) by {
            if name == list.last().0 {
                assert(names_of(list)[last] == name);
            } else {
                assert(listed(rest).contains_key(name));
                assert(names_of(rest).contains(name));
                let i = choose|i: int| 0 <= i < names_of(rest).len() && names_of(rest)[i] == name;
                assert(names_of(list)[i] == name);
            }
        }
        assert forall|name: Seq<char>| names_of(list).contains(name) implies #[trigger] listed(
            list,
        ).contains_key(name) by {
            let i = choose|i: int| 0 <= i < names_of(list).len() && names_of(list)[i] == name;
            if i < last {
                assert(names_of(rest)[i] == name);
                assert(names_of(rest).contains(name));
                assert(listed(rest).contains_key(name));
            }
        }
    } else {
        assert(names_of(list).len() == 0);
    }
}

/// In a list without a repeated name, each name maps to the pool beside it.
proof fn listed_at<A: ?Sized>(list: Seq<(Seq<char>, Seq<EthereumNetworkAdapter<A>>)>, i: int)
    requires
        distinct(list),
        0 <= i < list.len(),
    ensures
        listed(list).contains_key(list[i].0),
        listed(list)[list[i].0] == list[i].1,
    decreases list.len(),
{
    let rest = list.drop_last();
    if i < list.len() - 1 {
        assert(distinct(rest)) by {
            assert forall|a: int, b: int|
                #![trigger rest[a], rest[b]]
                0 <= a < b < rest.len() implies rest[a].0 != rest[b].0 by {
                assert(list[a].0 != list[b].0);
            }
        }
        listed_at(rest, i);
        assert(rest[i] == list[i]);
        assert(list[i].0 != list[list.len() - 1].0);
    }
}

/// Giving one name of a list another pool gives the same name another pool
/// in the map, and changes neither the names nor their order.
proof fn listed_update<A: ?Sized>(
    list: Seq<(Seq<char>, Seq<EthereumNetworkAdapter<A>>)>,
    i: int,
    pool: Seq<EthereumNetworkAdapter<A>>,
)
    requires
        distinct(list),
        0 <= i < list.len(),
    ensures
        distinct(list.update(i, (list[i].0, pool))),
        names_of(list.update(i, (list[i].0, pool))) == names_of(list),
        listed(list.update(i, (list[i].0, pool))) == listed(list).insert(list[i].0, pool),
{
    let changed = list.update(i, (list[i].0, pool));
    assert(names_of(changed) =~= names_of(list));
    assert(distinct(changed)) by {
        assert forall|a: int, b: int|
            #![trigger changed[a], changed[b]]
            0 <= a < b < changed.len() implies changed[a].0 != changed[b].0 by {
            assert(0 <= a < b < list.len());
            assert(list[a].0 != list[b].0);
        }
    }
    listed_names(list);
    listed_names(changed);
    let target = listed(list).insert(list[i].0, pool);
    assert(names_of(list)[i] == list[i].0);
    assert(names_of(list).contains(list[i].0));
    assert forall|name: Seq<char>| listed(changed).contains_key(name) == target.contains_key(
        name,
    ) by {
        assert(listed(changed).contains_key(name) <==> names_of(changed).contains(name));
        assert(listed(list).contains_key(name) <==> names_of(list).contains(name));
    }
    assert forall|name: Seq<char>| #[trigger]
        listed(changed).contains_key(name) implies listed(changed)[name] == target[name] by {
        assert(names_of(changed).contains(name));
        let k = choose|k: int| 0 <= k < names_of(changed).len() && names_of(changed)[k] == name;
        assert(changed[k].0 == name);
        listed_at(changed, k);
        listed_at(list, k);
        if k < i {
            assert(list[k].0 != list[i].0);
        } else if i < k {
            assert(list[i].0 != list[k].0);
        }
    }
    assert(listed(changed) =~= target);
}

/// Adding a named pool at the end of a list adds it to the map and to the
/// names.
proof fn listed_push<A: ?Sized>(
    list: Seq<(Seq<char>, Seq<EthereumNetworkAdapter<A>>)>,
    name: Seq<char>,
    pool: Seq<EthereumNetworkAdapter<A>>,
)
    ensures
        listed(list.push((name, pool))) == listed(list).insert(name, pool),
        names_of(list.push((name, pool))) == names_of(list).push(name),
        distinct(list) && !names_of(list).contains(name) ==> distinct(list.push((name, pool))),
{
    let longer = list.push((name, pool));
    assert(longer.drop_last() =~= list);
    assert(names_of(longer) =~= names_of(list).push(name));
    if distinct(list) && !names_of(list).contains(name) {
        assert forall|a: int, b: int|
            #![trigger longer[a], longer[b]]
            0 <= a < b < longer.len() implies longer[a].0 != longer[b].0 by {
            if b < list.len() {
                assert(list[a].0 != list[b].0);
            } else {
                assert(names_of(list)[a] == list[a].0);
            }
        }
    }
}

/// The test that `pools` has no network called by a given name.
pub open spec fn unknown_to<A: ?Sized>(
    pools: Map<Seq<char>, Seq<EthereumNetworkAdapter<A>>>,
) -> spec_fn(Seq<char>) -> bool {
    |name: Seq<char>| !pools.contains_key(name)
}

/// The pool registered under `name`, or the empty pool where there is none.
pub open spec fn pool_of<A: ?Sized>(
    pools: Map<Seq<char>, Seq<EthereumNetworkAdapter<A>>>,
    name: Seq<char>,
) -> Seq<EthereumNetworkAdapter<A>> {
    if pools.contains_key(name) {
        pools[name]
    } else {
        Seq::empty()
    }
}

/// The providers of one pool, each with the name of its network.
pub open spec fn labelled<A: ?Sized>(
    name: Seq<char>,
    entries: Seq<EthereumNetworkAdapter<A>>,
) -> Seq<(Seq<char>, NodeCapabilities, Arc<A>)> {
    Seq::new(entries.len(), |i: int| (name, entries[i].capabilities, entries[i].adapter))
}

/// All providers of the networks `names`, network after network in the order
/// of `names`, and within a network in the order of its pool.
pub open spec fn flattened<A: ?Sized>(
    names: Seq<Seq<char>>,
    pools: Map<Seq<char>, Seq<EthereumNetworkAdapter<A>>>,
) -> Seq<(Seq<char>, NodeCapabilities, Arc<A>)>
    decreases names.len(),
{
    if names.len() == 0 {
        Seq::empty()
    } else {
        flattened(names.drop_last(), pools) + labelled(names.last(), pools[names.last()])
    }
}

/// A list of providers with their network names, each name by its view.
pub open spec fn named<A: ?Sized>(all: Seq<(String, NodeCapabilities, Arc<A>)>) -> Seq<
    (Seq<char>, NodeCapabilities, Arc<A>),
> {
    Seq::new(all.len(), |i: int| (all[i].0@, all[i].1, all[i].2))
}

impl<A: ?Sized> Clone for EthereumNetworks<A> {
    fn clone(&self) -> (copy: Self)
        ensures
            copy@ == self@,
            copy.names() == self.names(),
    {
        proof {
            use_type_invariant(self);
        }
        let mut networks: Vec<(String, EthereumNetworkAdapters<A>)> = Vec::new();
        let mut i: usize = 0;
        while i < self.networks.len()
            invariant
                i <= self.networks@.len(),
                model_of(networks@) == model_of(self.networks@).take(i as int),
            decreases self.networks@.len() - i,
        {
            let ghost copied = model_of(networks@);
            networks.push((self.networks[i].0.clone(), self.networks[i].1.clone()));
            assert(model_of(networks@) =~= copied.push(model_of(self.networks@)[i as int]));
            assert(model_of(self.networks@).take(i + 1) =~= model_of(self.networks@).take(
                i as int,
            ).push(model_of(self.networks@)[i as int]));
            i += 1;
        }
        assert(model_of(self.networks@).take(i as int) =~= model_of(self.networks@));
        EthereumNetworks { networks }
    }
}

impl<A: ?Sized> View for EthereumNetworks<A> {
    type V = Map<Seq<char>, Seq<EthereumNetworkAdapter<A>>>;

    /// The pool of each registered network.
    closed spec fn view(&self) -> Map<Seq<char>, Seq<EthereumNetworkAdapter<A>>> {
        listed(model_of(self.networks@))
    }
}

impl<A: ?Sized> EthereumNetworks<A> {
    #[verifier::type_invariant]
    spec fn names_differ(&self) -> bool {
        distinct(model_of(self.networks@))
    }

    /// The registered network names, in the order of their registration.
    pub closed spec fn names(&self) -> Seq<Seq<char>> {
        names_of(model_of(self.networks@))
    }

    /// A registry without networks.
    pub fn new() -> (registry: Self)
        ensures
            registry@ == Map::<Seq<char>, Seq<EthereumNetworkAdapter<A>>>::empty(),
            registry.names() == Seq::<Seq<char>>::empty(),
    {
        let registry = EthereumNetworks { networks: Vec::new() };
        assert(model_of(registry.networks@) =~= Seq::empty());
        assert(registry.names() =~= Seq::empty());
        registry
    }

    /// Where `name` stands in the list of networks.
    fn position(networks: &Vec<(String, EthereumNetworkAdapters<A>)>, name: &String) -> (found:
        Option<usize>)
        ensures
            match found {
                Some(i) => i < networks@.len() && networks@[i as int].0@ == name@,
                None => !names_of(model_of(networks@)).contains(name@),
            },
    {
        let mut i: usize = 0;
        while i < networks.len()
            invariant
                i <= networks@.len(),
                forall|k: int| 0 <= k < i ==> networks@[k].0@ != name@,
            decreases networks@.len() - i,
        {
            if networks[i].0 == *name {
                return Some(i);
            }
            i += 1;
        }
        assert forall|k: int|
            0 <= k < names_of(model_of(networks@)).len() implies names_of(model_of(networks@))[k]
            != name@ by {
            assert(networks@[k].0@ != name@);
        }
        None
    }

    /// Registers a provider for the network `name`: behind the providers that
    /// the network already has, or as the first of a network that is new.
    pub fn insert(&mut self, name: String, capabilities: NodeCapabilities, adapter: Arc<A>)
        ensures
            final(self)@ == old(self)@.insert(
                name@,
                pool_of(old(self)@, name@).push(EthereumNetworkAdapter { capabilities, adapter }),
            ),
            final(self).names() == if old(self)@.contains_key(name@) {
                old(self).names()
            } else {
                old(self).names().push(name@)
            },
    {
        proof {
            use_type_invariant(&*self);
        }
        let ghost before = model_of(self.networks@);
        let mut networks: Vec<(String, EthereumNetworkAdapters<A>)> = Vec::new();
        std::mem::swap(&mut self.networks, &mut networks);
        proof {
            listed_names(before);
        }
        match Self::position(&networks, &name) {
            Some(i) => {
                let (known, mut pool) = networks.remove(i);
                pool.push(capabilities, adapter);
                networks.insert(i, (known, pool));
                proof {
                    listed_at(before, i as int);
                    listed_update(before, i as int, pool@);
                    assert(model_of(networks@) =~= before.update(i as int, (before[i as int].0, pool@)));
                    assert(names_of(before)[i as int] == name@);
                }
            },
            None => {
                let mut pool = EthereumNetworkAdapters::new();
                pool.push(capabilities, adapter);
                proof {
                    listed_push(before, name@, pool@);
                    assert(model_of(networks@.push((name, pool))) =~= before.push((name@, pool@)));
                    assert(pool@ =~= Seq::empty().push(EthereumNetworkAdapter { capabilities, adapter }));
                }
                networks.push((name, pool));
            },
        }
        self.networks = networks;
    }

    /// Takes over the networks of another registry. A network that both
    /// registries know gets the pool of `other_networks` in place of its own.
    /// The two pools are not joined. Networks that are new here are listed
    /// behind those already known, in their order in `other_networks`.
    pub fn extend(&mut self, other_networks: EthereumNetworks<A>)
        ensures
            final(self)@ == old(self)@.union_prefer_right(other_networks@),
            forall|name: Seq<char>| #[trigger]
                other_networks@.contains_key(name) ==> final(self)@[name] == other_networks@[name],
            forall|name: Seq<char>|
                !other_networks@.contains_key(name) && #[trigger] old(self)@.contains_key(name)
                    ==> final(self)@[name] == old(self)@[name],
            final(self).names() == old(self).names() + other_networks.names().filter(
                unknown_to(old(self)@),
            ),
    {
        proof {
            use_type_invariant(&*self);
            use_type_invariant(&other_networks);
        }
        let ghost mine = model_of(self.networks@);
        let ghost theirs = model_of(other_networks.networks@);
        let ghost fresh = unknown_to(listed(mine));
        let mut networks: Vec<(String, EthereumNetworkAdapters<A>)> = Vec::new();
        std::mem::swap(&mut self.networks, &mut networks);
        let mut incoming = other_networks.networks;
        let ghost mut done: int = 0;
        proof {
            assert(theirs.skip(0) =~= theirs);
            assert(theirs.take(0) =~= Seq::empty());
            assert(listed(mine).union_prefer_right(listed(theirs.take(0))) =~= listed(mine));
            assert(names_of(theirs.take(0)) =~= Seq::empty());
            assert(names_of(theirs.take(0)).filter(fresh) =~= Seq::empty()) by {
                reveal(Seq::filter);
            }
            assert(names_of(mine) + Seq::<Seq<char>>::empty() =~= names_of(mine));
        }
        while incoming.len() > 0
            invariant
                0 <= done <= theirs.len(),
                distinct(theirs),
                distinct(model_of(networks@)),
                fresh == unknown_to(listed(mine)),
                model_of(incoming@) == theirs.skip(done),
                listed(model_of(networks@)) == listed(mine).union_prefer_right(
                    listed(theirs.take(done)),
                ),
                names_of(model_of(networks@)) == names_of(mine) + names_of(theirs.take(done)).filter(
                    fresh,
                ),
            decreases incoming@.len(),
        {
            let ghost current = model_of(networks@);
            let ghost merged = theirs.take(done);
            assert(model_of(incoming@).len() == incoming@.len());
            assert(model_of(incoming@)[0] == theirs[done]);
            let ghost waiting = incoming@;
            let (name, pool) = incoming.remove(0);
            proof {
                assert forall|k: int| 0 <= k < incoming@.len() implies model_of(incoming@)[k]
                    == theirs.skip(done + 1)[k] by {
                    assert(incoming@[k] == waiting[k + 1]);
                    assert(model_of(waiting)[k + 1] == theirs.skip(done)[k + 1]);
                }
                assert(model_of(incoming@) =~= theirs.skip(done + 1));
                assert(theirs.take(done + 1) =~= merged.push((name@, pool@)));
                listed_push(merged, name@, pool@);
                listed_names(current);
                listed_names(mine);
                listed_names(merged);
                filter_push(names_of(merged), name@, fresh);
                assert(listed(mine).union_prefer_right(listed(merged).insert(name@, pool@))
                    =~= listed(mine).union_prefer_right(listed(merged)).insert(name@, pool@));
            }
            match Self::position(&networks, &name) {
                Some(i) => {
                    let (known, _) = networks.remove(i);
                    networks.insert(i, (known, pool));
                    proof {
                        listed_update(current, i as int, pool@);
                        assert(model_of(networks@) =~= current.update(
                            i as int,
                            (current[i as int].0, pool@),
                        ));
                        assert(!fresh(name@)) by {
                            if fresh(name@) {
                                assert(names_of(current)[i as int] == name@);
                                assert(!names_of(mine).contains(name@));
                                let kept = names_of(merged).filter(fresh);
                                let known = names_of(mine);
                                assert(names_of(current) == known + kept);
                                assert(names_of(current).len() == current.len());
                                assert(i >= known.len()) by {
                                    if i < known.len() {
                                        assert((known + kept)[i as int] == known[i as int]);
                                        assert(known.contains(name@));
                                    }
                                }
                                assert((known + kept)[i as int] == kept[i - known.len()]);
                                assert(kept[i - known.len()] == name@);
                                assert(kept.contains(name@));
                                names_of(merged).lemma_filter_contains_rev(fresh, name@);
                                let k = choose|k: int|
                                    0 <= k < names_of(merged).len() && names_of(merged)[k] == name@;
                                assert(theirs[k].0 == theirs[done].0);
                            }
                        }
                    }
                },
                None => {
                    proof {
                        listed_push(current, name@, pool@);
                        assert(model_of(networks@.push((name, pool))) =~= current.push(
                            (name@, pool@),
                        ));
                        assert(fresh(name@)) by {
                            if names_of(mine).contains(name@) {
                                let k = choose|k: int|
                                    0 <= k < names_of(mine).len() && names_of(mine)[k] == name@;
                                assert(names_of(current)[k] == name@);
                            }
                        }
                        assert((names_of(mine) + names_of(merged).filter(fresh)).push(name@)
                            =~= names_of(mine) + names_of(merged).filter(fresh).push(name@));
                    }
                    networks.push((name, pool));
                },
            }
            proof {
                done = done + 1;
            }
        }
        proof {
            assert(model_of(incoming@).len() == incoming@.len());
            assert(theirs.take(done) =~= theirs);
        }
        self.networks = networks;
    }

    /// Every provider of every network, with the name of its network:
    /// network after network in the order of registration, and within a
    /// network in the order of its pool.
    pub fn flatten(&self) -> (all: Vec<(String, NodeCapabilities, Arc<A>)>)
        ensures
            named(all@) == flattened(self.names(), self@),
    {
        proof {
            use_type_invariant(self);
        }
        let ghost model = model_of(self.networks@);
        let ghost names = names_of(model);
        let mut all: Vec<(String, NodeCapabilities, Arc<A>)> = Vec::new();
        let mut i: usize = 0;
        proof {
            assert(names.take(0) =~= Seq::empty());
            assert(named(all@) =~= Seq::empty());
        }
        while i < self.networks.len()
            invariant
                i <= self.networks@.len(),
                model == model_of(self.networks@),
                names == names_of(model),
                distinct(model),
                named(all@) == flattened(names.take(i as int), listed(model)),
            decreases self.networks@.len() - i,
        {
            let name = &self.networks[i].0;
            let pool = &self.networks[i].1;
            let ghost sofar = named(all@);
            let mut j: usize = 0;
            proof {
                assert(labelled(name@, pool@.take(0)) =~= Seq::empty());
                assert(sofar + Seq::empty() =~= sofar);
            }
            while j < pool.adapters.len()
                invariant
                    j <= pool@.len(),
                    named(all@) == sofar + labelled(name@, pool@.take(j as int)),
                decreases pool@.len() - j,
            {
                let entry = &pool.adapters[j];
                let ghost earlier = named(all@);
                all.push((name.clone(), entry.capabilities, share(&entry.adapter)));
                proof {
                    let item = (name@, entry.capabilities, entry.adapter);
                    assert(named(all@) =~= earlier.push(item));
                    assert(labelled(name@, pool@.take(j + 1)) =~= labelled(
                        name@,
                        pool@.take(j as int),
                    ).push(item));
                    assert((sofar + labelled(name@, pool@.take(j as int))).push(item) =~= sofar
                        + labelled(name@, pool@.take(j as int)).push(item));
                }
                j += 1;
            }
            proof {
                assert(pool@.take(j as int) =~= pool@);
                listed_at(model, i as int);
                assert(names.take(i + 1).drop_last() =~= names.take(i as int));
                assert(names.take(i + 1).last() == name@);
            }
            i += 1;
        }
        assert(names.take(i as int) =~= names);
        all
    }

    /// Sorts the pool of every network, so that in each of them the
    /// providers with fewer capabilities come first.
    pub fn sort(&mut self)
        ensures
            final(self).names() == old(self).names(),
            final(self)@.dom() == old(self)@.dom(),
            forall|name: Seq<char>| #[trigger]
                old(self)@.contains_key(name) ==> sorted_from(final(self)@[name], old(self)@[name]),
    {
        proof {
            use_type_invariant(&*self);
        }
        let ghost before = model_of(self.networks@);
        let mut networks: Vec<(String, EthereumNetworkAdapters<A>)> = Vec::new();
        std::mem::swap(&mut self.networks, &mut networks);
        let mut i: usize = 0;
        while i < networks.len()
            invariant
                i <= networks@.len(),
                networks@.len() == before.len(),
                distinct(before),
                forall|k: int|
                    0 <= k < before.len() ==> (#[trigger] model_of(networks@)[k]).0 == before[k].0,
                forall|k: int|
                    0 <= k < i ==> sorted_from(
                        (#[trigger] model_of(networks@)[k]).1,
                        before[k].1,
                    ),
                forall|k: int|
                    i <= k < before.len() ==> (#[trigger] model_of(networks@)[k]).1 == before[k].1,
            decreases networks@.len() - i,
        {
            let ghost current = model_of(networks@);
            let (name, mut pool) = networks.remove(i);
            pool.sort();
            networks.insert(i, (name, pool));
            proof {
                assert(model_of(networks@) =~= current.update(i as int, (current[i as int].0, pool@)));
                assert(current[i as int].1 == before[i as int].1);
            }
            i += 1;
        }
        proof {
            let after = model_of(networks@);
            assert(names_of(after) =~= names_of(before));
            assert(distinct(after)) by {
                assert forall|a: int, b: int|
                    #![trigger after[a], after[b]]
                    0 <= a < b < after.len() implies after[a].0 != after[b].0 by {
                    assert(before[a].0 != before[b].0);
                }
            }
            listed_names(after);
            listed_names(before);
            assert(listed(after).dom() =~= listed(before).dom());
            assert forall|name: Seq<char>| #[trigger]
                listed(before).contains_key(name) implies sorted_from(
                listed(after)[name],
                listed(before)[name],
            ) by {
                assert(names_of(before).contains(name));
                let k = choose|k: int| 0 <= k < names_of(before).len() && names_of(before)[k] == name;
                listed_at(before, k);
                listed_at(after, k);
            }
        }
        self.networks = networks;
    }

    /// Ends the setting up: sorts every pool and hands the registry out to
    /// be shared and read, with no way left to change it.
    pub fn publish(self) -> (shared: Arc<EthereumNetworks<A>>)
        ensures
            (*shared).names() == self.names(),
            (*shared)@.dom() == self@.dom(),
            forall|name: Seq<char>| #[trigger]
                self@.contains_key(name) ==> sorted_from((*shared)@[name], self@[name]),
    {
        let mut registry = self;
        registry.sort();
        Arc::new(registry)
    }

    /// The pool of the network `name`, where it is registered.
    pub fn get(&self, name: &String) -> (found: Option<&EthereumNetworkAdapters<A>>)
        ensures
            match found {
                Some(pool) => self@.contains_key(name@) && pool@ == self@[name@],
                None => !self@.contains_key(name@),
            },
    {
        proof {
            use_type_invariant(self);
            listed_names(model_of(self.networks@));
        }
        match Self::position(&self.networks, name) {
            Some(i) => {
                proof {
                    listed_at(model_of(self.networks@), i as int);
                }
                Some(&self.networks[i].1)
            },
            None => None,
        }
    }

    /// One provider of the network `network_name` that can serve
    /// `requirements`, drawn at random among those that can.
    /// `NetworkNotSupported` where the network is not registered,
    /// `NoEligibleEndpoint` where none of its providers can serve.
    pub fn adapter_with_capabilities(
        &self,
        network_name: String,
        requirements: &NodeCapabilities,
    ) -> (chosen: Result<&Arc<A>, NetworkError>)
        ensures
            match chosen {
                Ok(adapter) => self@.contains_key(network_name@) && exists|k: int|
                    0 <= k < sufficient(self@[network_name@], *requirements).len() && *adapter == (
                    #[trigger] sufficient(self@[network_name@], *requirements)[k]).adapter,
                Err(error) => if self@.contains_key(network_name@) {
                    error == NetworkError::NoEligibleEndpoint(*requirements) && sufficient(
                        self@[network_name@],
                        *requirements,
                    ).len() == 0
                } else {
                    error == NetworkError::NetworkNotSupported(network_name)
                },
            },
    {
        match self.get(&network_name) {
            Some(pool) => pool.cheapest_with(requirements),
            None => Err(NetworkError::NetworkNotSupported(network_name)),
        }
    }

    /// The providers of the network `network_name` that can serve
    /// `requirements`, in the order of the network's pool.
    /// `NetworkNotSupported` where the network is not registered,
    /// `NoEligibleEndpoint` where none of its providers can serve.
    pub fn adapters_with_capabilities(
        &self,
        network_name: String,
        requirements: &NodeCapabilities,
    ) -> (found: Result<EthereumNetworkAdapters<A>, NetworkError>)
        ensures
            match found {
                Ok(pool) => self@.contains_key(network_name@) && pool@.len() > 0 && pool@
                    == sufficient(self@[network_name@], *requirements),
                Err(error) => if self@.contains_key(network_name@) {
                    error == NetworkError::NoEligibleEndpoint(*requirements) && sufficient(
                        self@[network_name@],
                        *requirements,
                    ).len() == 0
                } else {
                    error == NetworkError::NetworkNotSupported(network_name)
                },
            },
    {
        match self.get(&network_name) {
            Some(pool) => pool.sufficient_adapters(requirements),
            None => Err(NetworkError::NetworkNotSupported(network_name)),
        }
    }

    /// Sends an operation to the network `network_name`: selects the
    /// providers that can serve `requirements` and performs the operation on
    /// them, with one attempt for each. Where no provider can be selected
    /// the operation ends with the reason and nothing is tried.
    pub fn run<T, E, F: Fn(&Arc<A>) -> AttemptOutcome<T, E>>(
        &self,
        network_name: String,
        requirements: &NodeCapabilities,
        label: String,
        attempt: F,
    ) -> (result: Result<T, RoutingError<E>>)
        requires
            forall|i: int|
                0 <= i < pool_of(self@, network_name@).len() ==> call_requires(
                    attempt,
                    (&pool_of(self@, network_name@)[i].adapter,),
                ),
        ensures
            match result {
                Err(RoutingError::Selection(error)) => if self@.contains_key(network_name@) {
                    error == NetworkError::NoEligibleEndpoint(*requirements) && sufficient(
                        self@[network_name@],
                        *requirements,
                    ).len() == 0
                } else {
                    error == NetworkError::NetworkNotSupported(network_name)
                },
                Err(RoutingError::Call(error)) => routed(
                    self@,
                    network_name@,
                    *requirements,
                    label,
                    attempt,
                    Err(error),
                ),
                Ok(value) => routed(self@, network_name@, *requirements, label, attempt, Ok(value)),
            },
    {
        match self.adapters_with_capabilities(network_name, requirements) {
            Err(error) => Err(RoutingError::Selection(error)),
            Ok(pool) => {
                assert forall|i: int| 0 <= i < pool@.len() implies call_requires(
                    attempt,
                    (&pool@[i].adapter,),
                ) by {
                    assert(pool@.contains(pool@[i]));
                    self@[network_name@].lemma_filter_contains_rev(serves(*requirements), pool@[i]);
                    let k = choose|k: int|
                        0 <= k < self@[network_name@].len() && self@[network_name@][k] == pool@[i];
                    assert(pool_of(self@, network_name@)[k] == pool@[i]);
                }
                let ended = pool.run(label, pool.adapters.len(), attempt);
                proof {
                    let outcomes = choose|outcomes: Seq<AttemptOutcome<T, E>>|
                        performed(pool@, label, pool.adapters.len(), attempt, outcomes, ended);
                    assert(tried_each_once(pool@, label, attempt, outcomes, ended));
                }
                match ended {
                    Ok(value) => Ok(value),
                    Err(error) => Err(RoutingError::Call(error)),
                }
            },
        }
    }
}

/// An operation that was sent to the network `name` of `pools` was performed
/// on the providers that can serve `requirements`, of which there is at least
/// one, with one attempt for each, and came to `result`.
pub open spec fn routed<A: ?Sized, T, E, F: Fn(&Arc<A>) -> AttemptOutcome<T, E>>(
    pools: Map<Seq<char>, Seq<EthereumNetworkAdapter<A>>>,
    name: Seq<char>,
    requirements: NodeCapabilities,
    label: String,
    attempt: F,
    result: Result<T, CallError<E>>,
) -> bool {
    let selected = sufficient(pools[name], requirements);
    &&& pools.contains_key(name)
    &&& selected.len() > 0
    &&& exists|outcomes: Seq<AttemptOutcome<T, E>>|
        #[trigger] tried_each_once(selected, label, attempt, outcomes, result)
}

/// An operation was performed on `entries` with one attempt for each of them.
pub open spec fn tried_each_once<A: ?Sized, T, E, F: Fn(&Arc<A>) -> AttemptOutcome<T, E>>(
    entries: Seq<EthereumNetworkAdapter<A>>,
    label: String,
    attempt: F,
    outcomes: Seq<AttemptOutcome<T, E>>,
    result: Result<T, CallError<E>>,
) -> bool {
    performed(entries, label, entries.len() as usize, attempt, outcomes, result)
}

} // verus!
