//! The providers of one network: which of them can serve a request, and which
//! is tried first.

use crate::capabilities::NodeCapabilities;
use crate::error::NetworkError;
use rand::rngs::ThreadRng;
use rand::seq::IteratorRandom;
use std::sync::Arc;
use vstd::prelude::*;
use vstd::seq_lib::*;

verus! {

/// One provider of a network: what it can serve, and the handle through which
/// it is called. The handle is shared and never looked into.
pub struct EthereumNetworkAdapter<A: ?Sized> {
    pub capabilities: NodeCapabilities,
    pub adapter: Arc<A>,
}

/// The providers of one network, in the order in which requests prefer them.
pub struct EthereumNetworkAdapters<A: ?Sized> {
    pub adapters: Vec<EthereumNetworkAdapter<A>>,
}

/// Hands out another pointer to the value that `handle` points to, by
/// `Arc::clone`, which copies the pointer and leaves the value shared.
#[verifier::external_body]
pub(crate) fn share<A: ?Sized>(handle: &Arc<A>) -> (shared: Arc<A>)
    ensures
        shared == *handle,
{
    Arc::clone(handle)
}

/// `rand::rngs::ThreadRng`, the handle to the random number generator of the
/// running thread. Nothing is known of what it holds.
#[verifier::external_type_specification]
#[verifier::external_body]
pub struct ExThreadRng(rand::rngs::ThreadRng);

/// `rand::thread_rng` hands out the generator of the running thread, which
/// the operating system seeds when the thread first asks for it. Nothing is
/// claimed of the generator. Where the operating system has no seed to give,
/// the call panics.
pub assume_specification[ rand::thread_rng ]() -> (generator: ThreadRng);

/// Draws a number below `bound` with `rand::seq::IteratorRandom::choose` on
/// the range `0..bound`. The range knows its length, so `choose` returns
/// `None` where the range is empty and else the number at a place below that
/// length. Which number is drawn depends on the generator and is left open.
#[verifier::external_body]
fn choose_below(generator: &mut ThreadRng, bound: usize) -> (drawn: Option<usize>)
    ensures
        bound == 0 ==> drawn is None,
        bound > 0 ==> drawn is Some && drawn->0 < bound,
{
    (0..bound).choose(generator)
}

impl<A: ?Sized> Clone for EthereumNetworkAdapter<A> {
    fn clone(&self) -> (copy: Self)
        ensures
            copy == *self,
    {
        EthereumNetworkAdapter { capabilities: self.capabilities, adapter: share(&self.adapter) }
    }
}

impl<A: ?Sized> Clone for EthereumNetworkAdapters<A> {
    fn clone(&self) -> (copy: Self)
        ensures
            copy@ == self@,
    {
        let mut adapters: Vec<EthereumNetworkAdapter<A>> = Vec::new();
        let mut i: usize = 0;
        while i < self.adapters.len()
            invariant
                i <= self@.len(),
                adapters@ == self@.take(i as int),
            decreases self@.len() - i,
        {
            adapters.push(self.adapters[i].clone());
            assert(self@.take(i + 1) =~= self@.take(i as int).push(self@[i as int]));
            i += 1;
        }
        assert(self@.take(i as int) =~= self@);
        EthereumNetworkAdapters { adapters }
    }
}

impl<A: ?Sized> View for EthereumNetworkAdapters<A> {
    type V = Seq<EthereumNetworkAdapter<A>>;

    open spec fn view(&self) -> Seq<EthereumNetworkAdapter<A>> {
        self.adapters@
    }
}

/// The test that a provider can serve a request for `required`.
pub open spec fn serves<A: ?Sized>(required: NodeCapabilities) -> spec_fn(
    EthereumNetworkAdapter<A>,
) -> bool {
    |entry: EthereumNetworkAdapter<A>| entry.capabilities.dominates(&required)
}

/// The providers among `entries` that can serve a request for `required`, in
/// their order in `entries`.
pub open spec fn sufficient<A: ?Sized>(
    entries: Seq<EthereumNetworkAdapter<A>>,
    required: NodeCapabilities,
) -> Seq<EthereumNetworkAdapter<A>> {
    entries.filter(serves(required))
}

/// No provider comes before one that it strictly dominates.
pub open spec fn ascending<A: ?Sized>(entries: Seq<EthereumNetworkAdapter<A>>) -> bool {
    forall|i: int, j: int|
        0 <= i < j < entries.len() ==> !(#[trigger] entries[i]).capabilities.strictly_dominates(
            &(#[trigger] entries[j]).capabilities,
        )
}

/// The test that a provider has exactly the capabilities `capabilities`.
pub open spec fn offers<A: ?Sized>(capabilities: NodeCapabilities) -> spec_fn(
    EthereumNetworkAdapter<A>,
) -> bool {
    |entry: EthereumNetworkAdapter<A>| entry.capabilities == capabilities
}

/// Moving the element at `from` to the left, to the place `to`, changes
/// nothing in what a filter keeps, provided that the filter keeps none of the
/// elements it is moved past whenever it keeps the element itself.
proof fn filter_after_move<T>(s: Seq<T>, from: int, to: int, keep: spec_fn(T) -> bool)
    requires
        0 <= to <= from < s.len(),
        keep(s[from]) ==> forall|m: int| to <= m < from ==> !keep(s[m]),
    ensures
        s.remove(from).insert(to, s[from]).filter(keep) == s.filter(keep),
{
    let head = s.subrange(0, to);
    let passed = s.subrange(to, from);
    let moved = seq![s[from]];
    let tail = s.subrange(from + 1, s.len() as int);
    assert(s =~= head + passed + moved + tail);
    assert(s.remove(from).insert(to, s[from]) =~= head + moved + passed + tail);
    Seq::filter_distributes_over_add(head + passed + moved, tail, keep);
    Seq::filter_distributes_over_add(head + passed, moved, keep);
    Seq::filter_distributes_over_add(head, passed, keep);
    Seq::filter_distributes_over_add(head + moved + passed, tail, keep);
    Seq::filter_distributes_over_add(head + moved, passed, keep);
    Seq::filter_distributes_over_add(head, moved, keep);
    if keep(s[from]) {
        assert(passed.all(|x: T| !keep(x)));
        passed.lemma_all_neg_filter_empty(keep);
        assert(passed.filter(keep) =~= Seq::empty());
    } else {
        filter_push(Seq::empty(), s[from], keep);
        assert(Seq::<T>::empty().push(s[from]) =~= moved);
        assert(Seq::<T>::empty().filter(keep) =~= Seq::empty()) by {
            reveal(Seq::filter);
        }
        assert(moved.filter(keep) =~= Seq::empty());
    }
    assert(head.filter(keep) + passed.filter(keep) + moved.filter(keep) + tail.filter(keep)
        =~= head.filter(keep) + moved.filter(keep) + passed.filter(keep) + tail.filter(keep));
}

/// What sorting makes of a pool: `after` is in ascending order, holds the
/// providers of `before`, each as often as `before` does, and keeps providers
/// with the same capabilities in the order they had.
pub open spec fn sorted_from<A: ?Sized>(
    after: Seq<EthereumNetworkAdapter<A>>,
    before: Seq<EthereumNetworkAdapter<A>>,
) -> bool {
    &&& ascending(after)
    &&& after.to_multiset() == before.to_multiset()
    &&& forall|capabilities: NodeCapabilities|
        #![trigger offers::<A>(capabilities)]
        after.filter(offers(capabilities)) == before.filter(offers(capabilities))
}

/// Filtering a sequence that ends in `last` filters what comes before it and
/// keeps `last` where it passes.
pub proof fn filter_push<T>(s: Seq<T>, last: T, keep: spec_fn(T) -> bool)
    ensures
        s.push(last).filter(keep) == if keep(last) {
            s.filter(keep).push(last)
        } else {
            s.filter(keep)
        },
{
    reveal(Seq::filter);
    assert(s.push(last).drop_last() =~= s);
}

/// The providers that can serve a request stand among themselves as they
/// stand in the pool, so in a sorted pool they are in ascending order too.
pub proof fn sufficient_keeps_order<A: ?Sized>(
    entries: Seq<EthereumNetworkAdapter<A>>,
    required: NodeCapabilities,
)
    requires
        ascending(entries),
    ensures
        ascending(sufficient(entries, required)),
    decreases entries.len(),
{
    reveal(Seq::filter);
    if entries.len() > 0 {
        let earlier = entries.drop_last();
        let last = entries.last();
        assert(ascending(earlier)) by {
            assert forall|i: int, j: int| 0 <= i < j < earlier.len() implies !(
            #[trigger] earlier[i]).capabilities.strictly_dominates(
                &(#[trigger] earlier[j]).capabilities,
            ) by {
                assert(earlier[i] == entries[i] && earlier[j] == entries[j]);
            }
        }
        sufficient_keeps_order(earlier, required);
        let kept = sufficient(entries, required);
        let before = sufficient(earlier, required);
        if serves::<A>(required)(last) {
            assert(kept == before.push(last));
            assert forall|i: int, j: int| 0 <= i < j < kept.len() implies !(
            #[trigger] kept[i]).capabilities.strictly_dominates(
                &(#[trigger] kept[j]).capabilities,
            ) by {
                if j < before.len() {
                    assert(kept[i] == before[i] && kept[j] == before[j]);
                } else {
                    assert(before.contains(before[i]));
                    earlier.lemma_filter_contains_rev(serves(required), before[i]);
                    let k = choose|k: int| 0 <= k < earlier.len() && earlier[k] == before[i];
                    assert(entries[k] == kept[i]);
                    assert(entries[entries.len() - 1] == kept[j]);
                }
            }
        }
    }
}

/// The first provider of a sorted pool is one of the cheapest: it strictly
/// dominates no provider of the pool.
pub proof fn first_is_minimal<A: ?Sized>(entries: Seq<EthereumNetworkAdapter<A>>, j: int)
    requires
        ascending(entries),
        0 <= j < entries.len(),
    ensures
        !entries[0].capabilities.strictly_dominates(&entries[j].capabilities),
{
}

/// Every provider can serve a request that requires nothing.
pub proof fn all_serve_the_least<A: ?Sized>(entries: Seq<EthereumNetworkAdapter<A>>)
    ensures
        sufficient(entries, NodeCapabilities { archive: false, traces: false }) == entries,
    decreases entries.len(),
{
    reveal(Seq::filter);
    if entries.len() > 0 {
        all_serve_the_least(entries.drop_last());
        assert(entries.drop_last().push(entries.last()) =~= entries);
    }
}

/// A provider can serve a request exactly when it is among the providers
/// that are selected for it.
pub proof fn sufficient_selects<A: ?Sized>(
    entries: Seq<EthereumNetworkAdapter<A>>,
    required: NodeCapabilities,
    entry: EthereumNetworkAdapter<A>,
)
    ensures
        sufficient(entries, required).contains(entry) <==> entries.contains(entry)
            && entry.capabilities.dominates(&required),
{
    let kept = sufficient(entries, required);
    if kept.contains(entry) {
        entries.lemma_filter_contains_rev(serves(required), entry);
        let k = choose|k: int| 0 <= k < kept.len() && kept[k] == entry;
        entries.lemma_filter_pred(serves(required), k);
    }
    if entries.contains(entry) && entry.capabilities.dominates(&required) {
        let k = choose|k: int| 0 <= k < entries.len() && entries[k] == entry;
        entries.lemma_filter_contains(serves(required), k);
    }
}

impl<A: ?Sized> EthereumNetworkAdapters<A> {
    /// A pool without providers.
    pub fn new() -> (pool: Self)
        ensures
            pool@.len() == 0,
    {
        EthereumNetworkAdapters { adapters: Vec::new() }
    }

    /// Appends a provider behind those already in the pool.
    pub fn push(&mut self, capabilities: NodeCapabilities, adapter: Arc<A>)
        ensures
            final(self)@ == old(self)@.push(EthereumNetworkAdapter { capabilities, adapter }),
    {
        self.adapters.push(EthereumNetworkAdapter { capabilities, adapter });
    }

    /// Sorts the pool so that providers with fewer capabilities come first.
    /// Afterwards no provider stands before one that it strictly dominates, so
    /// the first is one that no other undercuts. The pool holds the same
    /// providers as before, and those with the same capabilities keep their
    /// order among themselves.
    pub fn sort(&mut self)
        ensures
            sorted_from(final(self)@, old(self)@),
    {
        let mut i: usize = 0;
        while i < self.adapters.len()
            invariant
                i <= self@.len(),
                ascending(self@.take(i as int)),
                self@.to_multiset() == old(self)@.to_multiset(),
                forall|capabilities: NodeCapabilities|
                    #![trigger offers::<A>(capabilities)]
                    self@.filter(offers(capabilities)) == old(self)@.filter(offers(capabilities)),
            decreases self@.len() - i,
        {
            let mut k: usize = i;
            while k > 0 && self.adapters[k - 1].capabilities.outranks(&self.adapters[i].capabilities)
                invariant
                    k <= i < self@.len(),
                    forall|m: int|
                        k <= m < i ==> (#[trigger] self@[m]).capabilities.strictly_dominates(
                            &self@[i as int].capabilities,
                        ),
                decreases k,
            {
                k -= 1;
            }
            let ghost before = self@;
            let entry = self.adapters.remove(i);
            self.adapters.insert(k, entry);
            proof {
                let after = self@;
                assert(after == before.remove(i as int).insert(k as int, before[i as int]));
                broadcast use vstd::multiset::group_multiset_axioms;

                before.to_multiset_ensures();
                assert(before.to_multiset().count(before[i as int]) > 0);
                to_multiset_remove(before, i as int);
                to_multiset_insert(before.remove(i as int), k as int, before[i as int]);
                assert(after.to_multiset() =~= before.to_multiset());
                assert forall|capabilities: NodeCapabilities|
                    #![trigger offers::<A>(capabilities)]
                    after.filter(offers(capabilities)) == old(self)@.filter(
                        offers(capabilities),
                    ) by {
                    filter_after_move(before, i as int, k as int, offers(capabilities));
                }
                let sorted = after.take(i + 1);
                let prefix = before.take(i as int);
                assert forall|a: int, b: int| 0 <= a < b < sorted.len() implies !(
                #[trigger] sorted[a]).capabilities.strictly_dominates(
                    &(#[trigger] sorted[b]).capabilities,
                ) by {
                    if b < k {
                        assert(sorted[a] == prefix[a] && sorted[b] == prefix[b]);
                    } else if b == k {
                        assert(sorted[a] == prefix[a]);
                        assert(sorted[b] == before[i as int]);
                        assert(prefix[k - 1] == before[k - 1]);
                        if a < k - 1 {
                            assert(!prefix[a].capabilities.strictly_dominates(
                                &prefix[k - 1].capabilities,
                            ));
                        }
                    } else if a < k {
                        assert(sorted[a] == prefix[a] && sorted[b] == prefix[b - 1]);
                    } else if a == k {
                        assert(sorted[b] == before[b - 1]);
                    } else {
                        assert(sorted[a] == prefix[a - 1] && sorted[b] == prefix[b - 1]);
                    }
                }
            }
            i += 1;
        }
        assert(self@.take(i as int) =~= self@);
    }

    /// The providers that can serve a request for `required`.
    fn sufficient_entries(&self, required: &NodeCapabilities) -> (found: Vec<
        &EthereumNetworkAdapter<A>,
    >)
        ensures
            found@.len() == sufficient(self@, *required).len(),
            forall|k: int| 0 <= k < found@.len() ==> *found@[k] == sufficient(self@, *required)[k],
    {
        let mut found: Vec<&EthereumNetworkAdapter<A>> = Vec::new();
        let mut i: usize = 0;
        proof {
            reveal(Seq::filter);
            assert(self@.take(0) =~= Seq::empty());
        }
        while i < self.adapters.len()
            invariant
                i <= self@.len(),
                found@.len() == sufficient(self@.take(i as int), *required).len(),
                forall|k: int|
                    0 <= k < found@.len() ==> *found@[k] == sufficient(
                        self@.take(i as int),
                        *required,
                    )[k],
            decreases self@.len() - i,
        {
            let entry = &self.adapters[i];
            proof {
                filter_push(self@.take(i as int), *entry, serves(*required));
                assert(self@.take(i + 1) =~= self@.take(i as int).push(*entry));
            }
            if entry.capabilities.dominates(required) {
                found.push(entry);
            }
            i += 1;
        }
        assert(self@.take(i as int) =~= self@);
        found
    }

    /// The pool of the providers that can serve a request for `required`, in
    /// the order of this pool, or `NoEligibleEndpoint` where there is none.
    pub fn sufficient_adapters(&self, required: &NodeCapabilities) -> (found: Result<
        EthereumNetworkAdapters<A>,
        NetworkError,
    >)
        ensures
            match found {
                Ok(pool) => pool@ == sufficient(self@, *required) && pool@.len() > 0,
                Err(error) => error == NetworkError::NoEligibleEndpoint(*required) && sufficient(
                    self@,
                    *required,
                ).len() == 0,
            },
    {
        let entries = self.sufficient_entries(required);
        if entries.len() == 0 {
            return Err(NetworkError::NoEligibleEndpoint(*required));
        }
        let mut adapters: Vec<EthereumNetworkAdapter<A>> = Vec::new();
        let mut i: usize = 0;
        while i < entries.len()
            invariant
                i <= entries@.len(),
                adapters@.len() == i,
                forall|k: int| 0 <= k < i ==> adapters@[k] == *entries@[k],
            decreases entries@.len() - i,
        {
            adapters.push(entries[i].clone());
            i += 1;
        }
        assert(adapters@ =~= sufficient(self@, *required));
        Ok(EthereumNetworkAdapters { adapters })
    }

    /// The provider that requests prefer: the first of the pool. In a sorted
    /// pool no other provider is strictly dominated by it.
    pub fn cheapest(&self) -> (first: Option<&Arc<A>>)
        ensures
            match first {
                Some(adapter) => self@.len() > 0 && *adapter == self@[0].adapter,
                None => self@.len() == 0,
            },
    {
        if self.adapters.len() == 0 {
            None
        } else {
            Some(&self.adapters[0].adapter)
        }
    }

    /// The provider that a given draw selects among those that can serve
    /// `required`: the draw counts through them in pool order and starts again
    /// at the first when it runs past the last. `NoEligibleEndpoint` where
    /// none can serve.
    pub fn cheapest_with_draw(&self, required: &NodeCapabilities, draw: usize) -> (chosen: Result<
        &Arc<A>,
        NetworkError,
    >)
        ensures
            match chosen {
                Ok(adapter) => {
                    let eligible = sufficient(self@, *required);
                    eligible.len() > 0 && *adapter == eligible[draw as int % eligible.len() as int].adapter
                },
                Err(error) => error == NetworkError::NoEligibleEndpoint(*required) && sufficient(
                    self@,
                    *required,
                ).len() == 0,
            },
    {
        let entries = self.sufficient_entries(required);
        if entries.len() == 0 {
            return Err(NetworkError::NoEligibleEndpoint(*required));
        }
        Ok(&entries[draw % entries.len()].adapter)
    }

    /// One of the providers that can serve `required`, drawn at random so that
    /// equally qualified providers share the load. `NoEligibleEndpoint` where
    /// none can serve.
    pub fn cheapest_with(&self, required: &NodeCapabilities) -> (chosen: Result<
        &Arc<A>,
        NetworkError,
    >)
        ensures
            match chosen {
                Ok(adapter) => exists|k: int|
                    0 <= k < sufficient(self@, *required).len() && *adapter == (
                    #[trigger] sufficient(self@, *required)[k]).adapter,
                Err(error) => error == NetworkError::NoEligibleEndpoint(*required) && sufficient(
                    self@,
                    *required,
                ).len() == 0,
            },
    {
        let entries = self.sufficient_entries(required);
        let mut generator = rand::thread_rng();
        match choose_below(&mut generator, entries.len()) {
            Some(k) => {
                assert(*entries@[k as int] == sufficient(self@, *required)[k as int]);
                Ok(&entries[k].adapter)
            },
            None => Err(NetworkError::NoEligibleEndpoint(*required)),
        }
    }
}

} // verus!
