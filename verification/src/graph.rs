//! The memoization graph: what it remembers of each computed key, and
//! how it brings a key up to date at a version.

use vstd::prelude::*;
use crate::cancellation::CancellationContext;
use crate::computation::alike;
use crate::computation::eval;
use crate::computation::is_value_of;
use crate::computation::lawful;
use crate::computation::lemma_same_refl;
use crate::computation::lemma_same_sym;
use crate::computation::lemma_same_trans;
use crate::computation::lemma_steps_alike;
use crate::computation::may_read;
use crate::computation::is_trace;
use crate::computation::lemma_trace_gives_value;
use crate::computation::reads_hold;
use crate::computation::reads_unchanged;
use crate::computation::run;
use crate::computation::Computations;
use crate::computation::Eval;
use crate::computation::Step;
use crate::computation::StepOutcome;
use crate::inputs::Inputs;
use crate::inputs::Version;
use crate::key::Key;
use crate::key::KeyKind;
use crate::share::Share;

verus! {

/// What the graph did for a computed key, in the order it did it.
#[derive(Clone, Copy, Debug, PartialEq, Eq, Structural)]
pub enum Event {
    /// The value was remembered for the version asked for.
    Hit(Key),
    /// Every recorded read was found unchanged, so the remembered value
    /// was kept without running the computation.
    Reused(Key),
    /// The computation of the key was started.
    Executed(Key),
    /// A request for the key found its signal tripped, or the key's
    /// computation found itself cancelled and gave up.
    Cancelled(Key),
}

/// How often the computation of `key` was started, according to `log`.
pub open spec fn executions(log: Seq<Event>, key: Key) -> nat
    decreases log.len(),
{
    if log.len() == 0 {
        0
    } else {
        executions(log.drop_last(), key) + if log.last() == Event::Executed(key) {
            1nat
        } else {
            0nat
        }
    }
}

/// Appending an event raises the count of its own key alone.
pub proof fn lemma_executions_push(log: Seq<Event>, e: Event, key: Key)
    ensures
        executions(log.push(e), key) == executions(log, key) + if e == Event::Executed(key) {
            1nat
        } else {
            0nat
        },
{
    assert(log.push(e).drop_last() =~= log);
}

/// The graph's record of one computed key.
pub struct Node<V> {
    key: Key,
    value: V,
    reads: Vec<(Key, V)>,
    valid_from: Version,
    valid_to: Version,
}

/// What the graph remembers of a key: its last value, the keys that were
/// read to produce it with the values they had, and the range of
/// versions, both ends included, at which the value is known to be
/// current. The range is empty where its first version is above its
/// last.
pub struct Cached<V> {
    pub value: V,
    pub reads: Seq<(Key, V)>,
    pub valid_from: Version,
    pub valid_to: Version,
}

impl<V> Cached<V> {
    /// The value is known to be current at version `at`.
    pub open spec fn covers(&self, at: Version) -> bool {
        self.valid_from.0 <= at.0 <= self.valid_to.0
    }

    /// What is remembered once the versions before `keep` have been
    /// forgotten: the range loses what lies before `keep`.
    pub open spec fn kept_from(self, keep: Version) -> Self {
        if self.valid_to.0 < keep.0 {
            Cached { valid_from: keep, valid_to: Version((keep.0 - 1) as u64), ..self }
        } else if self.valid_from.0 < keep.0 {
            Cached { valid_from: keep, ..self }
        } else {
            self
        }
    }

    /// What is remembered once the value has been found current at
    /// version `at` too: the range grows by `at` where `at` adjoins it,
    /// and becomes `at` alone where it does not.
    pub open spec fn grown_by(self, at: Version) -> Self {
        if self.valid_to.0 + 1 == at.0 {
            Cached { valid_to: at, ..self }
        } else if at.0 + 1 == self.valid_from.0 {
            Cached { valid_from: at, ..self }
        } else {
            Cached { valid_from: at, valid_to: at, ..self }
        }
    }
}

/// How a request for a key's value ended.
#[derive(Debug)]
pub enum Resolved<V> {
    /// The key has this value at the version asked for.
    Value(V),
    /// The value rests on this key, which has no value there.
    Missing(Key),
    /// The work was cancelled before it had a value.
    Cancelled,
}

impl<V: Copy> Clone for Resolved<V> {
    fn clone(&self) -> (r: Self)
        ensures
            r == *self,
    {
        match self {
            Resolved::Value(v) => Resolved::Value(*v),
            Resolved::Missing(k) => Resolved::Missing(*k),
            Resolved::Cancelled => Resolved::Cancelled,
        }
    }
}

impl<V: Copy> Copy for Resolved<V> {

}

impl<V: Share> Share for Resolved<V> {
    fn share(&self) -> (copy: Self) {
        match self {
            Resolved::Value(v) => Resolved::Value(v.share()),
            Resolved::Missing(k) => Resolved::Missing(*k),
            Resolved::Cancelled => Resolved::Cancelled,
        }
    }
}

/// The outcome `r` tells what `key` is worth under `inputs`: the value
/// of the key, as far as the key's equality test can tell, and for an
/// injected key the very value; or the key that has no value, where
/// the key's value rests on one.
pub open spec fn answers<V, C: Computations<V>>(
    comp: &C,
    inputs: Map<Key, V>,
    key: Key,
    r: Resolved<V>,
) -> bool {
    match r {
        Resolved::Value(v) => is_value_of(comp, inputs, key, v) && (key.kind == KeyKind::Injected
            ==> eval(comp, inputs, key) == Eval::Value(v)),
        Resolved::Missing(k) => eval(comp, inputs, key) == Eval::<V>::Missing(k),
        Resolved::Cancelled => true,
    }
}

/// The memoization graph.
pub struct Graph<V> {
    nodes: Vec<Node<V>>,
    events: Vec<Event>,
}

impl<V> Node<V> {
    pub closed spec fn shown(&self) -> Cached<V> {
        Cached {
            value: self.value,
            reads: self.reads@,
            valid_from: self.valid_from,
            valid_to: self.valid_to,
        }
    }
}

impl<V: Share> Graph<V> {
    spec fn held_in(nodes: Seq<Node<V>>, key: Key) -> bool {
        exists|i: int| 0 <= i < nodes.len() && (#[trigger] nodes[i]).key == key
    }

    spec fn first_in(nodes: Seq<Node<V>>, key: Key, i: int) -> bool {
        &&& 0 <= i < nodes.len()
        &&& nodes[i].key == key
        &&& forall|j: int| 0 <= j < i ==> (#[trigger] nodes[j]).key != key
    }

    spec fn slot_in(nodes: Seq<Node<V>>, key: Key) -> int {
        choose|i: int| Self::first_in(nodes, key, i)
    }

    spec fn holds(&self, key: Key) -> bool {
        Self::held_in(self.nodes@, key)
    }

    spec fn is_first(&self, key: Key, i: int) -> bool {
        Self::first_in(self.nodes@, key, i)
    }

    spec fn slot_of(&self, key: Key) -> int {
        Self::slot_in(self.nodes@, key)
    }

    proof fn lemma_first(&self, key: Key, i: int)
        requires
            self.is_first(key, i),
        ensures
            self.cached(key) == Some(self.nodes@[i].shown()),
    {
        assert(self.holds(key));
        let j = self.slot_of(key);
        assert(self.is_first(key, j));
        if i < j {
            assert(self.nodes@[i].key != key);
        } else if j < i {
            assert(self.nodes@[j].key != key);
        }
    }

    spec fn distinct(&self) -> bool {
        forall|i: int, j: int|
            0 <= i < j < self.nodes@.len() ==> (#[trigger] self.nodes@[i]).key != (
            #[trigger] self.nodes@[j]).key
    }

    spec fn node_ok<C: Computations<V>>(comp: &C, inputs: &Inputs<V>, n: Node<V>) -> bool {
        &&& n.key.kind == KeyKind::Computed
        &&& is_trace(comp, n.key, n.reads@, n.value)
        &&& n.valid_from.0 <= n.valid_to.0 + 1
        &&& n.valid_to.0 <= inputs.current().0
        &&& forall|at: Version|
            n.valid_from.0 <= at.0 <= n.valid_to.0 ==> reads_hold(
                comp,
                #[trigger] inputs.snapshot(at),
                n.reads@,
            )
    }

    /// What the graph remembers of `key`, if anything.
    pub closed spec fn cached(&self, key: Key) -> Option<Cached<V>> {
        if self.holds(key) {
            Some(self.nodes@[self.slot_of(key)].shown())
        } else {
            None
        }
    }

    /// Everything the graph did so far, oldest first.
    pub closed spec fn events(&self) -> Seq<Event> {
        self.events@
    }

    /// The graph is consistent with the computations and the injected
    /// values: the computations do alike on what their equality tests
    /// take for the same, each key is remembered once, and what is
    /// remembered of
    /// it is the record of a run of its computation whose reads hold
    /// at every version of the range for which it is remembered.
    pub closed spec fn wf<C: Computations<V>>(&self, comp: &C, inputs: &Inputs<V>) -> bool {
        &&& lawful(comp)
        &&& self.distinct()
        &&& forall|i: int|
            0 <= i < self.nodes@.len() ==> Self::node_ok(comp, inputs, #[trigger] self.nodes@[i])
    }

    /// The graph has only grown since `before`: no key was forgotten
    /// and no event was taken back.
    pub closed spec fn grows_from(&self, before: &Self) -> bool {
        &&& before.nodes@.len() <= self.nodes@.len()
        &&& forall|i: int|
            0 <= i < before.nodes@.len() ==> (#[trigger] self.nodes@[i]).key == before.nodes@[i].key
        &&& before.events@.len() <= self.events@.len()
        &&& forall|i: int|
            0 <= i < before.events@.len() ==> #[trigger] self.events@[i] == before.events@[i]
    }

    /// Apart from `key`, nothing of the same or a higher rank was
    /// touched since `before`.
    pub open spec fn keeps_above<C: Computations<V>>(
        &self,
        before: &Self,
        comp: &C,
        key: Key,
    ) -> bool {
        forall|k: Key|
            k != key && comp.rank(k) >= comp.rank(key) ==> {
                &&& #[trigger] self.cached(k) == before.cached(k)
                &&& executions(self.events(), k) == executions(before.events(), k)
            }
    }

    /// The remembered value of `key` can be kept at version `at`
    /// without running its computation: it is remembered for that
    /// version, or nothing that it read has changed.
    pub open spec fn fresh<C: Computations<V>>(
        &self,
        comp: &C,
        inputs: &Inputs<V>,
        key: Key,
        at: Version,
    ) -> bool {
        match self.cached(key) {
            Some(c) => c.covers(at) || reads_unchanged(comp, inputs.snapshot(at), c.reads),
            None => false,
        }
    }

    /// What a request for `key` at version `at` that ended in `r` leaves
    /// remembered of the key.
    ///
    /// A request for an injected key changes nothing that is remembered
    /// and, unless it is cancelled, nothing at all. A request that was
    /// cancelled, or that found an injected value missing, leaves what
    /// was remembered of `key` as it was. A value that was
    /// remembered for `at` is returned with nothing changed but the
    /// record of events, which says that it was. A value that could be
    /// kept because nothing it read has changed stays as it is, with
    /// its range grown by `at`. Any other value that is returned comes
    /// from a run of the computation, and is remembered for `at` alone.
    pub open spec fn remembers<C: Computations<V>>(
        before: &Self,
        after: &Self,
        comp: &C,
        inputs: &Inputs<V>,
        key: Key,
        at: Version,
        r: Resolved<V>,
    ) -> bool {
        &&& key.kind == KeyKind::Injected ==> (r is Cancelled || after.events() == before.events())
            && forall|k: Key| #[trigger] after.cached(k) == before.cached(k)
        &&& key.kind == KeyKind::Computed ==> match r {
            Resolved::Value(v) => {
                &&& after.cached(key).is_some()
                &&& after.cached(key).unwrap().value == v
                &&& after.cached(key).unwrap().covers(at)
                &&& (before.cached(key).is_some() && before.cached(key).unwrap().covers(at)) ==> {
                    &&& after.events() == before.events().push(Event::Hit(key))
                    &&& forall|k: Key| #[trigger] after.cached(k) == before.cached(k)
                }
                &&& (before.cached(key).is_some() && !before.cached(key).unwrap().covers(at)
                    && before.fresh(comp, inputs, key, at)) ==> {
                    &&& after.cached(key) == Some(before.cached(key).unwrap().grown_by(at))
                    &&& after.events().len() > 0
                    &&& after.events().last() == Event::Reused(key)
                }
                &&& !before.fresh(comp, inputs, key, at) ==> {
                    &&& after.cached(key).unwrap().valid_from == at
                    &&& after.cached(key).unwrap().valid_to == at
                }
            },
            _ => after.cached(key) == before.cached(key),
        }
    }

    /// How often a request for `key` at version `at` that ended in `r`
    /// started the key's computation: not at all where the remembered
    /// value could be kept, exactly once where it could not and the
    /// request was not cancelled, and never more than once.
    pub open spec fn counts<C: Computations<V>>(
        before: &Self,
        after: &Self,
        comp: &C,
        inputs: &Inputs<V>,
        key: Key,
        at: Version,
        r: Resolved<V>,
    ) -> bool {
        let was = executions(before.events(), key);
        let is = executions(after.events(), key);
        &&& was <= is <= was + 1
        &&& key.kind == KeyKind::Injected ==> is == was
        &&& before.fresh(comp, inputs, key, at) ==> is == was && (r matches Resolved::Value(v)
            ==> before.cached(key).unwrap().value == v)
        &&& key.kind == KeyKind::Computed && !before.fresh(comp, inputs, key, at) && !(r is Cancelled)
            ==> is == was + 1
    }

    /// What a request for `key` at version `at` does: it turns the graph
    /// `before` into `after` and ends in `r`, where `cancelled` says
    /// whether the request's cancellation signal was tripped.
    ///
    /// The graph only grows, and apart from `key` nothing of the same or
    /// a higher rank is touched. A request whose signal is tripped is
    /// cancelled and changes nothing but the record of events, which
    /// says that it was. A request that is not cancelled
    /// returns the key's value at `at`: for an injected key the very
    /// value, and for a computed key a value that the key's equality
    /// test takes for the same as what a run on the true values of its
    /// dependencies would give. Unless the signal is tripped, a
    /// request is cancelled only where a computation had to be brought
    /// up to date and found itself cancelled: never for an injected
    /// key, for a value remembered for `at`, or where no computation
    /// can be interrupted.
    pub open spec fn resolution<C: Computations<V>>(
        before: &Self,
        after: &Self,
        comp: &C,
        inputs: &Inputs<V>,
        key: Key,
        at: Version,
        cancelled: bool,
        r: Resolved<V>,
    ) -> bool {
        &&& after.grows_from(before)
        &&& after.keeps_above(before, comp, key)
        &&& cancelled ==> r is Cancelled && after.events() == before.events().push(
            Event::Cancelled(key),
        ) && forall|k: Key| #[trigger] after.cached(k) == before.cached(k)
        &&& !(r is Cancelled) ==> answers(comp, inputs.snapshot(at), key, r)
        &&& r is Cancelled ==> cancelled || (comp.interruptible() && key.kind == KeyKind::Computed
            && !(before.cached(key) matches Some(c) && c.covers(at)))
        &&& Self::remembers(before, after, comp, inputs, key, at, r)
        &&& Self::counts(before, after, comp, inputs, key, at, r)
    }

    proof fn lemma_at(&self, i: int)
        requires
            self.distinct(),
            0 <= i < self.nodes@.len(),
        ensures
            self.cached(self.nodes@[i].key) == Some(self.nodes@[i].shown()),
    {
        let key = self.nodes@[i].key;
        assert forall|j: int| 0 <= j < i implies (#[trigger] self.nodes@[j]).key != key by {
            assert(self.nodes@[j].key != self.nodes@[i].key);
        }
        self.lemma_first(key, i);
    }

    proof fn lemma_same_cached(&self, other: &Self, key: Key)
        requires
            self.distinct(),
            other.distinct(),
            forall|i: int|
                0 <= i < self.nodes@.len() && (#[trigger] self.nodes@[i]).key == key ==> i
                    < other.nodes@.len() && other.nodes@[i].key == key && other.nodes@[i].shown()
                    == self.nodes@[i].shown(),
            forall|j: int|
                0 <= j < other.nodes@.len() && (#[trigger] other.nodes@[j]).key == key ==> j
                    < self.nodes@.len() && self.nodes@[j].key == key,
        ensures
            self.cached(key) == other.cached(key),
    {
        if self.holds(key) {
            let i = choose|i: int|
                0 <= i < self.nodes@.len() && (#[trigger] self.nodes@[i]).key == key;
            assert(other.nodes@[i].key == key);
            self.lemma_at(i);
            other.lemma_at(i);
        } else if other.holds(key) {
            let j = choose|j: int|
                0 <= j < other.nodes@.len() && (#[trigger] other.nodes@[j]).key == key;
            assert(self.nodes@[j].key == key);
        }
    }

    /// A graph is consistent only with computations that do alike on
    /// what is alike.
    pub proof fn lemma_wf_is_lawful<C: Computations<V>>(&self, comp: &C, inputs: &Inputs<V>)
        requires
            self.wf(comp, inputs),
        ensures
            lawful(comp),
    {
    }

    /// What a consistent graph remembers of a key is the key's value at
    /// every version of the range for which it is remembered, as far
    /// as the key's equality test can tell.
    pub proof fn lemma_cached_is_value<C: Computations<V>>(
        &self,
        comp: &C,
        inputs: &Inputs<V>,
        key: Key,
        at: Version,
    )
        requires
            self.wf(comp, inputs),
            self.cached(key) matches Some(c) && c.covers(at),
        ensures
            key.kind == KeyKind::Computed,
            at.0 <= inputs.current().0,
            is_trace(comp, key, self.cached(key).unwrap().reads, self.cached(key).unwrap().value),
            reads_hold(comp, inputs.snapshot(at), self.cached(key).unwrap().reads),
            is_value_of(comp, inputs.snapshot(at), key, self.cached(key).unwrap().value),
    {
        let i = choose|i: int| 0 <= i < self.nodes@.len() && (#[trigger] self.nodes@[i]).key == key;
        self.lemma_at(i);
        let n = self.nodes@[i];
        assert(Self::node_ok(comp, inputs, n));
        assert(reads_hold(comp, inputs.snapshot(at), n.reads@));
        lemma_trace_gives_value(comp, inputs.snapshot(at), key, n.reads@, n.value);
    }

    /// What a consistent graph remembers of a key is the record of a
    /// run of the key's computation, for versions that have been
    /// committed.
    pub proof fn lemma_cached_is_trace<C: Computations<V>>(
        &self,
        comp: &C,
        inputs: &Inputs<V>,
        key: Key,
    )
        requires
            self.wf(comp, inputs),
            self.cached(key).is_some(),
        ensures
            key.kind == KeyKind::Computed,
            self.cached(key).unwrap().valid_to.0 <= inputs.current().0,
            is_trace(comp, key, self.cached(key).unwrap().reads, self.cached(key).unwrap().value),
    {
        let i = choose|i: int| 0 <= i < self.nodes@.len() && (#[trigger] self.nodes@[i]).key == key;
        self.lemma_at(i);
        assert(Self::node_ok(comp, inputs, self.nodes@[i]));
    }

    /// A commit does not disturb the graph: a graph that is consistent
    /// with the injected values stays so when newer versions are added
    /// and every earlier version keeps its values.
    pub proof fn lemma_wf_carries_over<C: Computations<V>>(
        &self,
        comp: &C,
        before: &Inputs<V>,
        after: &Inputs<V>,
    )
        requires
            self.wf(comp, before),
            before.current().0 <= after.current().0,
            forall|at: Version|
                at.0 <= before.current().0 ==> #[trigger] after.snapshot(at) == before.snapshot(at),
        ensures
            self.wf(comp, after),
    {
        assert forall|i: int| 0 <= i < self.nodes@.len() implies Self::node_ok(
            comp,
            after,
            #[trigger] self.nodes@[i],
        ) by {
            let n = self.nodes@[i];
            assert(Self::node_ok(comp, before, n));
            assert forall|at: Version| n.valid_from.0 <= at.0 <= n.valid_to.0 implies reads_hold(
                comp,
                #[trigger] after.snapshot(at),
                n.reads@,
            ) by {
                assert(after.snapshot(at) == before.snapshot(at));
            }
        }
    }

    /// The graph remembers of every key what `other` remembers of it.
    pub closed spec fn remembers_as(&self, other: &Self) -> bool {
        self.nodes@ == other.nodes@
    }

    /// Two graphs that remember the same are consistent together, and
    /// remember of each key the same.
    pub proof fn lemma_remembers_as<C: Computations<V>>(
        &self,
        other: &Self,
        comp: &C,
        inputs: &Inputs<V>,
    )
        requires
            self.remembers_as(other),
        ensures
            self.wf(comp, inputs) == other.wf(comp, inputs),
            forall|k: Key| #[trigger] self.cached(k) == other.cached(k),
    {
        assert forall|k: Key| #[trigger] self.cached(k) == other.cached(k) by {
            assert(self.holds(k) == other.holds(k));
            assert(self.slot_of(k) == other.slot_of(k));
        }
    }

    /// The graph remembers what `before` remembered, but for the
    /// versions before `keep`.
    pub closed spec fn forgets(&self, before: &Self, keep: Version) -> bool {
        &&& self.nodes@.len() == before.nodes@.len()
        &&& self.events@ == before.events@
        &&& forall|i: int|
            0 <= i < self.nodes@.len() ==> (#[trigger] self.nodes@[i]).key == before.nodes@[i].key
                && self.nodes@[i].shown() == before.nodes@[i].shown().kept_from(keep)
    }

    /// A graph that has forgotten the versions before `keep` remembers
    /// of each key what it did, but for those versions, and is
    /// consistent with every store of injected values that shows from
    /// `keep` on what the store showed with which it was consistent.
    pub proof fn lemma_forgets<C: Computations<V>>(
        &self,
        before: &Self,
        keep: Version,
        comp: &C,
        inputs: &Inputs<V>,
        thinned: &Inputs<V>,
    )
        requires
            self.forgets(before, keep),
            before.wf(comp, inputs),
            keep.0 <= inputs.current().0,
            thinned.current() == inputs.current(),
            forall|at: Version|
                keep.0 <= at.0 ==> #[trigger] thinned.snapshot(at) == inputs.snapshot(at),
        ensures
            self.wf(comp, thinned),
            self.events() == before.events(),
            forall|k: Key| #[trigger]
                self.cached(k) == match before.cached(k) {
                    Some(c) => Some(c.kept_from(keep)),
                    None => None,
                },
    {
        assert forall|i: int| 0 <= i < self.nodes@.len() implies Self::node_ok(
            comp,
            thinned,
            #[trigger] self.nodes@[i],
        ) by {
            let was = before.nodes@[i];
            let is = self.nodes@[i];
            assert(Self::node_ok(comp, inputs, was));
            assert(is.shown() == was.shown().kept_from(keep));
            assert(is.reads@ == was.reads@);
            assert forall|at: Version| is.valid_from.0 <= at.0 <= is.valid_to.0 implies reads_hold(
                comp,
                #[trigger] thinned.snapshot(at),
                is.reads@,
            ) by {
                assert(was.valid_from.0 <= at.0 <= was.valid_to.0);
                assert(keep.0 <= at.0);
                assert(thinned.snapshot(at) == inputs.snapshot(at));
            }
        }
        assert forall|i: int, j: int| 0 <= i < j < self.nodes@.len() implies (
        #[trigger] self.nodes@[i]).key != (#[trigger] self.nodes@[j]).key by {
            assert(before.nodes@[i].key != before.nodes@[j].key);
        }
        assert forall|k: Key| #[trigger]
            self.cached(k) == match before.cached(k) {
                Some(c) => Some(c.kept_from(keep)),
                None => None,
            } by {
            if before.holds(k) {
                let i = choose|i: int|
                    0 <= i < before.nodes@.len() && (#[trigger] before.nodes@[i]).key == k;
                before.lemma_at(i);
                assert(self.nodes@[i].key == k);
                self.lemma_at(i);
            } else if self.holds(k) {
                let j = choose|j: int|
                    0 <= j < self.nodes@.len() && (#[trigger] self.nodes@[j]).key == k;
                assert(before.nodes@[j].key == k);
            }
        }
    }

    /// Forgets the versions before `keep`: what is remembered of a key
    /// stays, but for those versions.
    pub fn forget_before(&mut self, keep: Version)
        ensures
            final(self).forgets(old(self), keep),
    {
        let n = self.nodes.len();
        let mut i: usize = 0;
        while i < n
            invariant
                i <= n,
                n == self.nodes@.len(),
                n == old(self).nodes@.len(),
                self.events@ == old(self).events@,
                forall|j: int|
                    0 <= j < i ==> (#[trigger] self.nodes@[j]).key == old(self).nodes@[j].key
                        && self.nodes@[j].shown() == old(self).nodes@[j].shown().kept_from(keep),
                forall|j: int| i <= j < n ==> #[trigger] self.nodes@[j] == old(self).nodes@[j],
            decreases n - i,
        {
            if self.nodes[i].valid_to.0 < keep.0 {
                self.nodes[i].valid_from = keep;
                self.nodes[i].valid_to = Version(keep.0 - 1);
            } else if self.nodes[i].valid_from.0 < keep.0 {
                self.nodes[i].valid_from = keep;
            }
            i = i + 1;
        }
    }

    /// A graph that remembers nothing.
    pub fn new() -> (g: Self)
        ensures
            forall|k: Key| g.cached(k).is_none(),
            g.events() == Seq::<Event>::empty(),
    {
        Graph { nodes: Vec::new(), events: Vec::new() }
    }

    /// A graph that remembers nothing is consistent with everything.
    pub proof fn lemma_empty_is_wf<C: Computations<V>>(&self, comp: &C, inputs: &Inputs<V>)
        requires
            lawful(comp),
            forall|k: Key| self.cached(k).is_none(),
        ensures
            self.wf(comp, inputs),
    {
        if self.nodes@.len() > 0 {
            let k = self.nodes@[0].key;
            assert(self.holds(k));
            assert(self.cached(k).is_some());
        }
    }

    fn find(&self, key: &Key) -> (r: Option<usize>)
        ensures
            match r {
                Some(i) => i < self.nodes@.len() && self.nodes@[i as int].key == *key
                    && self.cached(*key) == Some(self.nodes@[i as int].shown()),
                None => !self.holds(*key) && self.cached(*key).is_none(),
            },
    {
        let mut i: usize = 0;
        while i < self.nodes.len()
            invariant
                i <= self.nodes@.len(),
                forall|j: int| 0 <= j < i ==> (#[trigger] self.nodes@[j]).key != *key,
            decreases self.nodes@.len() - i,
        {
            if self.nodes[i].key.same_key(key) {
                proof {
                    self.lemma_first(*key, i as int);
                }
                return Some(i);
            }
            i = i + 1;
        }
        None
    }

    /// The remembered value of `key`, if there is one.
    pub fn value_of(&self, key: &Key) -> (r: Option<V>)
        ensures
            r == match self.cached(*key) {
                Some(c) => Some(c.value),
                None => None,
            },
    {
        match self.find(key) {
            Some(i) => Some(self.nodes[i].value.share()),
            None => None,
        }
    }

    /// The first and the last version of the range at which the
    /// remembered value of `key` is known to be current, if a value is
    /// remembered.
    pub fn valid_range(&self, key: &Key) -> (r: Option<(Version, Version)>)
        ensures
            r == match self.cached(*key) {
                Some(c) => Some((c.valid_from, c.valid_to)),
                None => None,
            },
    {
        match self.find(key) {
            Some(i) => Some((self.nodes[i].valid_from, self.nodes[i].valid_to)),
            None => None,
        }
    }

    /// The keys that the last run of `key` read, in the order it read
    /// them, if a value is remembered.
    pub fn dependencies(&self, key: &Key) -> (r: Option<Vec<Key>>)
        ensures
            match (r, self.cached(*key)) {
                (Some(deps), Some(c)) => deps@.len() == c.reads.len() && forall|i: int|
                    0 <= i < c.reads.len() ==> deps@[i] == (#[trigger] c.reads[i]).0,
                (None, None) => true,
                _ => false,
            },
    {
        match self.find(key) {
            Some(i) => {
                let n = self.nodes[i].reads.len();
                let mut deps: Vec<Key> = Vec::new();
                let mut j: usize = 0;
                while j < n
                    invariant
                        i < self.nodes@.len(),
                        n == self.nodes@[i as int].reads@.len(),
                        j <= n,
                        deps@.len() == j,
                        forall|m: int|
                            0 <= m < j ==> deps@[m] == (#[trigger] self.nodes@[i as int].reads@[m]).0,
                    decreases n - j,
                {
                    deps.push(self.nodes[i].reads[j].0);
                    j = j + 1;
                }
                Some(deps)
            },
            None => None,
        }
    }

    /// How often the computation of `key` was started.
    pub fn executions_of(&self, key: &Key) -> (n: usize)
        ensures
            n == executions(self.events(), *key),
    {
        let mut n: usize = 0;
        let mut i: usize = 0;
        while i < self.events.len()
            invariant
                i <= self.events@.len(),
                n <= i,
                n == executions(self.events@.subrange(0, i as int), *key),
            decreases self.events@.len() - i,
        {
            proof {
                let upto = self.events@.subrange(0, i + 1);
                assert(upto.drop_last() =~= self.events@.subrange(0, i as int));
                assert(upto.last() == self.events@[i as int]);
            }
            match self.events[i] {
                Event::Executed(k) => {
                    if k.same_key(key) {
                        n = n + 1;
                    }
                },
                _ => {},
            }
            i = i + 1;
        }
        proof {
            assert(self.events@.subrange(0, self.events@.len() as int) =~= self.events@);
        }
        n
    }

    /// Hands out everything the graph did so far, oldest first, and
    /// starts the record anew. What the graph remembers of the keys is
    /// not touched.
    pub fn take_events(&mut self) -> (log: Vec<Event>)
        ensures
            log@ == old(self).events(),
            final(self).events().len() == 0,
            final(self).remembers_as(old(self)),
    {
        let mut log: Vec<Event> = Vec::new();
        std::mem::swap(&mut log, &mut self.events);
        log
    }

    /// Everything the graph did so far, oldest first.
    pub fn event_log(&self) -> (log: &Vec<Event>)
        ensures
            log@ == self.events(),
    {
        &self.events
    }

    proof fn lemma_grows_trans(&self, mid: &Self, before: &Self)
        requires
            self.grows_from(mid),
            mid.grows_from(before),
        ensures
            self.grows_from(before),
    {
        assert forall|i: int| 0 <= i < before.nodes@.len() implies (#[trigger] self.nodes@[i]).key
            == before.nodes@[i].key by {
            assert(mid.nodes@[i].key == before.nodes@[i].key);
        }
        assert forall|i: int| 0 <= i < before.events@.len() implies #[trigger] self.events@[i]
            == before.events@[i] by {
            assert(mid.events@[i] == before.events@[i]);
        }
    }

    /// Checks the recorded reads of the node in slot `i` one after the
    /// other, bringing each read key up to date first, and stops at the
    /// first that no longer passes the equality test.
    fn revalidate<C: Computations<V>>(
        &mut self,
        comp: &C,
        inputs: &Inputs<V>,
        i: usize,
        key: Key,
        at: Version,
        cancel: &CancellationContext,
    ) -> (r: Check)
        requires
            old(self).wf(comp, inputs),
            at.0 <= inputs.current().0,
            i < old(self).nodes@.len(),
            old(self).nodes@[i as int].key == key,
            !cancel.is_cancelled(),
        ensures
            final(self).wf(comp, inputs),
            final(self).grows_from(old(self)),
            forall|k: Key|
                comp.rank(k) >= comp.rank(key) ==> {
                    &&& #[trigger] final(self).cached(k) == old(self).cached(k)
                    &&& executions(final(self).events(), k) == executions(old(self).events(), k)
                },
            final(self).nodes@[i as int].shown() == old(self).nodes@[i as int].shown(),
            r is Cancelled ==> comp.interruptible(),
            r is Unchanged ==> reads_hold(
                comp,
                inputs.snapshot(at),
                old(self).nodes@[i as int].reads@,
            ) && reads_unchanged(comp, inputs.snapshot(at), old(self).nodes@[i as int].reads@),
            r is Changed ==> !reads_unchanged(
                comp,
                inputs.snapshot(at),
                old(self).nodes@[i as int].reads@,
            ),
        decreases comp.rank(key), 1nat,
    {
        let ghost recorded = self.nodes@[i as int].reads@;
        let ghost snap = inputs.snapshot(at);
        let n = self.nodes[i].reads.len();
        let mut j: usize = 0;
        proof {
            assert(Self::node_ok(comp, inputs, self.nodes@[i as int]));
        }
        while j < n
            invariant
                self.wf(comp, inputs),
                self.grows_from(old(self)),
                at.0 <= inputs.current().0,
                !cancel.is_cancelled(),
                i < self.nodes@.len(),
                i < old(self).nodes@.len(),
                self.nodes@[i as int].key == key,
                old(self).nodes@[i as int].key == key,
                self.nodes@[i as int].shown() == old(self).nodes@[i as int].shown(),
                recorded == old(self).nodes@[i as int].reads@,
                snap == inputs.snapshot(at),
                is_trace(comp, key, recorded, old(self).nodes@[i as int].value),
                n == recorded.len(),
                j <= n,
                forall|k: Key|
                    comp.rank(k) >= comp.rank(key) ==> {
                        &&& #[trigger] self.cached(k) == old(self).cached(k)
                        &&& executions(self.events(), k) == executions(old(self).events(), k)
                    },
                forall|m: int|
                    0 <= m < j ==> #[trigger] is_value_of(comp, snap, recorded[m].0, recorded[m].1),
            decreases n - j,
        {
            let dep = self.nodes[i].reads[j].0;
            let seen = self.nodes[i].reads[j].1.share();
            let ghost mid = *self;
            proof {
                assert(recorded[j as int] == (dep, seen));
                assert(comp.spec_step(key, recorded.subrange(0, j as int)) == Step::<V>::Need(dep));
                assert(comp.rank(dep) < comp.rank(key));
            }
            if cancel.is_cancelled() {
                return Check::Cancelled;
            }
            let got = self.resolve(comp, inputs, dep, at, cancel);
            proof {
                self.lemma_grows_trans(&mid, old(self));
                assert(self.cached(key) == mid.cached(key));
                mid.lemma_at(i as int);
                self.lemma_at(i as int);
                assert forall|k: Key| comp.rank(k) >= comp.rank(key) implies {
                    &&& #[trigger] self.cached(k) == old(self).cached(k)
                    &&& executions(self.events(), k) == executions(old(self).events(), k)
                } by {
                    assert(self.cached(k) == mid.cached(k));
                    assert(mid.cached(k) == old(self).cached(k));
                }
            }
            match got {
                Resolved::Value(x) => {
                    let ghost worth = eval(comp, snap, dep)->Value_0;
                    proof {
                        assert(is_value_of(comp, snap, dep, x));
                    }
                    if comp.same(&dep, &x, &seen) {
                        proof {
                            lemma_same_trans(comp, dep, worth, x, seen);
                            assert(is_value_of(comp, snap, recorded[j as int].0, recorded[j as int].1));
                        }
                        j = j + 1;
                    } else {
                        proof {
                            if comp.spec_same(dep, worth, seen) {
                                lemma_same_sym(comp, dep, worth, x);
                                lemma_same_trans(comp, dep, x, worth, seen);
                            }
                            assert(!is_value_of(comp, snap, recorded[j as int].0, recorded[j as int].1));
                        }
                        return Check::Changed;
                    }
                },
                Resolved::Missing(_) => {
                    proof {
                        assert(eval(comp, snap, recorded[j as int].0) is Missing);
                        assert(!is_value_of(comp, snap, recorded[j as int].0, recorded[j as int].1));
                    }
                    return Check::Changed;
                },
                Resolved::Cancelled => {
                    return Check::Cancelled;
                },
            }
        }
        Check::Unchanged
    }

    /// Runs the computation of `key` from the start, bringing each key
    /// it asks for up to date, and remembers the result in `slot`, or
    /// in a new node where the key had none. Nothing is remembered of a
    /// run that does not finish with a value.
    fn execute<C: Computations<V>>(
        &mut self,
        comp: &C,
        inputs: &Inputs<V>,
        slot: Option<usize>,
        key: Key,
        at: Version,
        cancel: &CancellationContext,
    ) -> (r: Resolved<V>)
        requires
            old(self).wf(comp, inputs),
            at.0 <= inputs.current().0,
            key.kind == KeyKind::Computed,
            !cancel.is_cancelled(),
            match slot {
                Some(i) => i < old(self).nodes@.len() && old(self).nodes@[i as int].key == key,
                None => !old(self).holds(key),
            },
        ensures
            final(self).wf(comp, inputs),
            final(self).grows_from(old(self)),
            final(self).keeps_above(old(self), comp, key),
            !(r is Cancelled) ==> answers(comp, inputs.snapshot(at), key, r),
            r is Cancelled ==> comp.interruptible(),
            match r {
                Resolved::Value(v) => final(self).cached(key) matches Some(c) && c.value == v
                    && c.valid_from == at && c.valid_to == at,
                _ => final(self).cached(key) == old(self).cached(key),
            },
            executions(final(self).events(), key) == executions(old(self).events(), key) + 1,
        decreases comp.rank(key), 1nat,
    {
        let ghost snap = inputs.snapshot(at);
        self.events.push(Event::Executed(key));
        proof {
            assert forall|k: Key| #[trigger] self.cached(k) == old(self).cached(k) by {
                self.lemma_same_cached(old(self), k);
            }
            assert forall|k: Key|
                executions(self.events(), k) == executions(old(self).events(), k) + if k == key {
                    1nat
                } else {
                    0nat
                } by {
                lemma_executions_push(old(self).events@, Event::Executed(key), k);
            }
        }
        let mut reads: Vec<(Key, V)> = Vec::new();
        let ghost mut worth: Seq<(Key, V)> = Seq::empty();
        proof {
            self.lemma_wf_is_lawful(comp, inputs);
        }
        loop
            invariant
                lawful(comp),
                self.wf(comp, inputs),
                self.grows_from(old(self)),
                at.0 <= inputs.current().0,
                key.kind == KeyKind::Computed,
                !cancel.is_cancelled(),
                snap == inputs.snapshot(at),
                match slot {
                    Some(i) => i < self.nodes@.len() && self.nodes@[i as int].key == key,
                    None => !self.holds(key),
                },
                forall|k: Key|
                    comp.rank(k) >= comp.rank(key) ==> #[trigger] self.cached(k) == old(
                        self,
                    ).cached(k),
                forall|k: Key|
                    k != key && comp.rank(k) >= comp.rank(key) ==> #[trigger] executions(
                        self.events(),
                        k,
                    ) == executions(old(self).events(), k),
                executions(self.events(), key) == executions(old(self).events(), key) + 1,
                forall|m: int|
                    0 <= m < reads@.len() ==> {
                        &&& #[trigger] comp.spec_step(key, reads@.subrange(0, m)) == Step::<
                            V,
                        >::Need(reads@[m].0)
                        &&& crate::computation::may_read(
                            comp,
                            key,
                            reads@.subrange(0, m),
                            reads@[m].0,
                        )
                    },
                alike(comp, worth, reads@),
                forall|m: int|
                    0 <= m < worth.len() ==> eval(comp, snap, (#[trigger] worth[m]).0)
                        == Eval::Value(worth[m].1),
                run(comp, snap, key, worth) == eval(comp, snap, key),
                reads@.len() <= comp.max_reads(key),
            decreases comp.max_reads(key) - reads@.len(),
        {
            let taken = comp.step(&key, &reads);
            proof {
                lemma_steps_alike(comp, key, worth, reads@);
            }
            match taken {
                StepOutcome::Cancelled => {
                    let ghost mid = *self;
                    self.events.push(Event::Cancelled(key));
                    proof {
                        assert(self.grows_from(&mid));
                        self.lemma_grows_trans(&mid, old(self));
                        assert forall|k: Key| #[trigger] self.cached(k) == mid.cached(k) by {
                            self.lemma_same_cached(&mid, k);
                        }
                        assert forall|k: Key|
                            executions(self.events(), k) == executions(mid.events(), k) by {
                            lemma_executions_push(mid.events@, Event::Cancelled(key), k);
                        }
                        assert forall|k: Key| k != key && comp.rank(k) >= comp.rank(key) implies {
                            &&& #[trigger] self.cached(k) == old(self).cached(k)
                            &&& executions(self.events(), k) == executions(old(self).events(), k)
                        } by {
                            assert(self.cached(k) == mid.cached(k));
                            assert(mid.cached(k) == old(self).cached(k));
                            assert(executions(self.events(), k) == executions(mid.events(), k));
                            assert(executions(mid.events(), k) == executions(old(self).events(), k));
                        }
                        assert(self.cached(key) == mid.cached(key));
                        assert(executions(self.events(), key) == executions(mid.events(), key));
                    }
                    return Resolved::Cancelled;
                },
                StepOutcome::Step(Step::Done(v)) => {
                    if cancel.is_cancelled() {
                        return Resolved::Cancelled;
                    }
                    let ghost mid = *self;
                    let ghost trace = reads@;
                    let node = Node { key, value: v.share(), reads, valid_from: at, valid_to: at };
                    proof {
                        assert(is_trace(comp, key, trace, v));
                        assert(comp.spec_step(key, worth) is Done);
                        assert(is_value_of(comp, snap, key, v));
                        assert forall|m: int| 0 <= m < trace.len() implies #[trigger] is_value_of(
                            comp,
                            snap,
                            trace[m].0,
                            trace[m].1,
                        ) by {
                            assert(worth[m].0 == trace[m].0);
                            assert(eval(comp, snap, worth[m].0) == Eval::Value(worth[m].1));
                        }
                        assert(reads_hold(comp, snap, trace));
                        assert(Self::node_ok(comp, inputs, node));
                    }
                    match slot {
                        Some(i) => {
                            self.nodes[i] = node;
                            proof {
                                assert(self.nodes@ == mid.nodes@.update(i as int, node));
                                assert(self.distinct());
                                self.lemma_at(i as int);
                            }
                        },
                        None => {
                            self.nodes.push(node);
                            proof {
                                assert(self.nodes@ == mid.nodes@.push(node));
                                assert forall|a: int, b: int|
                                    0 <= a < b < self.nodes@.len() implies (
                                #[trigger] self.nodes@[a]).key != (#[trigger] self.nodes@[b]).key by {
                                    if b == mid.nodes@.len() {
                                        assert(mid.nodes@[a].key != key);
                                    } else {
                                        assert(mid.nodes@[a].key != mid.nodes@[b].key);
                                    }
                                }
                                self.lemma_at(mid.nodes@.len() as int);
                            }
                        },
                    }
                    proof {
                        assert(self.grows_from(&mid));
                        self.lemma_grows_trans(&mid, old(self));
                        assert forall|k: Key| k != key implies #[trigger] self.cached(k)
                            == mid.cached(k) by {
                            mid.lemma_same_cached(self, k);
                        }
                    }
                    return Resolved::Value(v);
                },
                StepOutcome::Step(Step::Need(dep)) => {
                    let ghost mid = *self;
                    proof {
                        assert(comp.spec_step(key, worth) == Step::<V>::Need(dep));
                        assert(may_read(comp, key, worth, dep));
                    }
                    let got = self.resolve(comp, inputs, dep, at, cancel);
                    proof {
                        self.lemma_grows_trans(&mid, old(self));
                        assert(self.cached(key) == mid.cached(key));
                        match slot {
                            Some(i) => {},
                            None => {
                                assert(mid.cached(key).is_none());
                                if self.holds(key) {
                                    assert(self.cached(key).is_some());
                                }
                            },
                        }
                        assert forall|k: Key| comp.rank(k) >= comp.rank(key) implies #[trigger]
                            self.cached(k) == old(self).cached(k) by {
                            assert(self.cached(k) == mid.cached(k));
                        }
                        assert forall|k: Key|
                            k != key && comp.rank(k) >= comp.rank(key) implies #[trigger]
                            executions(self.events(), k) == executions(old(self).events(), k) by {
                            assert(self.cached(k) == mid.cached(k));
                        }
                        assert(self.cached(key) == mid.cached(key));
                    }
                    match got {
                        Resolved::Value(x) => {
                            let ghost prior = reads@;
                            reads.push((dep, x));
                            proof {
                                assert(reads@.drop_last() =~= prior);
                                assert forall|m: int| 0 <= m < reads@.len() implies {
                                    &&& #[trigger] comp.spec_step(key, reads@.subrange(0, m))
                                        == Step::<V>::Need(reads@[m].0)
                                    &&& crate::computation::may_read(
                                        comp,
                                        key,
                                        reads@.subrange(0, m),
                                        reads@[m].0,
                                    )
                                } by {
                                    if m < prior.len() {
                                        assert(reads@.subrange(0, m) =~= prior.subrange(0, m));
                                        assert(reads@[m] == prior[m]);
                                    } else {
                                        assert(reads@.subrange(0, m) =~= prior);
                                    }
                                }
                                let before = worth;
                                let found = eval(comp, snap, dep)->Value_0;
                                assert(is_value_of(comp, snap, dep, x));
                                worth = worth.push((dep, found));
                                assert(run(comp, snap, key, before) == run(comp, snap, key, worth));
                                assert forall|m: int| 0 <= m < worth.len() implies (
                                #[trigger] worth[m]).0 == reads@[m].0 && comp.spec_same(
                                    worth[m].0,
                                    worth[m].1,
                                    reads@[m].1,
                                ) by {
                                    if m < prior.len() {
                                        assert(worth[m] == before[m]);
                                        assert(reads@[m] == prior[m]);
                                    }
                                }
                                assert forall|m: int| 0 <= m < worth.len() implies eval(
                                    comp,
                                    snap,
                                    (#[trigger] worth[m]).0,
                                ) == Eval::Value(worth[m].1) by {
                                    if m < prior.len() {
                                        assert(worth[m] == before[m]);
                                    }
                                }
                            }
                        },
                        Resolved::Missing(k) => {
                            proof {
                                assert(eval(comp, snap, dep) == Eval::<V>::Missing(k));
                                assert(run(comp, snap, key, worth) == Eval::<V>::Missing(k));
                            }
                            return Resolved::Missing(k);
                        },
                        Resolved::Cancelled => {
                            return Resolved::Cancelled;
                        },
                    }
                },
            }
        }
    }

    /// Brings `key` up to date at version `at` and returns its value.
    ///
    /// A value that is remembered for `at` is returned as it is.
    /// Otherwise the keys that the last run read are brought up to date
    /// in the order they were read; if each still passes the equality
    /// test against the value recorded for it, the remembered value is
    /// kept, and the range for which it is remembered grows by `at`
    /// where `at` adjoins it and else becomes `at` alone. Only if one
    /// of them changed, or nothing is remembered, is the computation
    /// run again, and its value, the keys it read and `at` are then
    /// remembered.
    ///
    /// Cancellation is tested on entry, before each dependency is
    /// resolved and before a result is stored. A cancelled request
    /// leaves what is remembered of `key` as it was.
    pub fn resolve<C: Computations<V>>(
        &mut self,
        comp: &C,
        inputs: &Inputs<V>,
        key: Key,
        at: Version,
        cancel: &CancellationContext,
    ) -> (r: Resolved<V>)
        requires
            old(self).wf(comp, inputs),
            at.0 <= inputs.current().0,
        ensures
            final(self).wf(comp, inputs),
            Self::resolution(
                old(self),
                final(self),
                comp,
                inputs,
                key,
                at,
                cancel.is_cancelled(),
                r,
            ),
        decreases comp.rank(key), 2nat,
    {
        if cancel.is_cancelled() {
            self.events.push(Event::Cancelled(key));
            proof {
                assert forall|k: Key| #[trigger] self.cached(k) == old(self).cached(k) by {
                    self.lemma_same_cached(old(self), k);
                }
                assert forall|k: Key|
                    executions(self.events(), k) == executions(old(self).events(), k) by {
                    lemma_executions_push(old(self).events@, Event::Cancelled(key), k);
                }
                assert(self.grows_from(old(self)));
                assert(self.events() == old(self).events().push(Event::Cancelled(key)));
                assert(executions(self.events(), key) == executions(old(self).events(), key));
            }
            return Resolved::Cancelled;
        }
        if key.is_injected() {
            let found = inputs.value_at(&key, at);
            proof {
                self.lemma_wf_is_lawful(comp, inputs);
                if found.is_some() {
                    lemma_same_refl(comp, key, found.unwrap());
                }
            }
            return match found {
                Some(v) => Resolved::Value(v),
                None => Resolved::Missing(key),
            };
        }
        let slot = self.find(&key);
        if let Some(i) = slot {
            proof {
                self.lemma_at(i as int);
            }
            if self.nodes[i].valid_from.0 <= at.0 && at.0 <= self.nodes[i].valid_to.0 {
                let v = self.nodes[i].value.share();
                proof {
                    self.lemma_cached_is_value(comp, inputs, key, at);
                }
                self.events.push(Event::Hit(key));
                proof {
                    assert forall|k: Key| #[trigger] self.cached(k) == old(self).cached(k) by {
                        self.lemma_same_cached(old(self), k);
                    }
                    assert forall|k: Key|
                        executions(self.events(), k) == executions(old(self).events(), k) by {
                        lemma_executions_push(old(self).events@, Event::Hit(key), k);
                    }
                }
                return Resolved::Value(v);
            }
            let check = self.revalidate(comp, inputs, i, key, at, cancel);
            match check {
                Check::Unchanged => {
                    let ghost mid = *self;
                    let v = self.nodes[i].value.share();
                    let from = self.nodes[i].valid_from;
                    let to = self.nodes[i].valid_to;
                    if to.0 < at.0 && at.0 - to.0 == 1 {
                        self.nodes[i].valid_to = at;
                    } else if at.0 < from.0 && from.0 - at.0 == 1 {
                        self.nodes[i].valid_from = at;
                    } else {
                        self.nodes[i].valid_from = at;
                        self.nodes[i].valid_to = at;
                    }
                    self.events.push(Event::Reused(key));
                    proof {
                        mid.lemma_at(i as int);
                        let was = mid.nodes@[i as int];
                        let is = self.nodes@[i as int];
                        assert(Self::node_ok(comp, inputs, was));
                        assert(is.reads@ == was.reads@);
                        assert(reads_hold(comp, inputs.snapshot(at), is.reads@));
                        assert forall|w: Version| is.valid_from.0 <= w.0 <= is.valid_to.0 implies reads_hold(
                            comp,
                            #[trigger] inputs.snapshot(w),
                            is.reads@,
                        ) by {
                            if w != at {
                                assert(was.valid_from.0 <= w.0 <= was.valid_to.0);
                            }
                        }
                        assert(Self::node_ok(comp, inputs, is));
                        assert(self.distinct());
                        assert(self.wf(comp, inputs));
                        self.lemma_at(i as int);
                        assert(self.grows_from(&mid));
                        self.lemma_grows_trans(&mid, old(self));
                        assert forall|k: Key| k != key implies #[trigger] self.cached(k)
                            == mid.cached(k) by {
                            mid.lemma_same_cached(self, k);
                        }
                        assert forall|k: Key|
                            executions(self.events(), k) == executions(mid.events(), k) by {
                            lemma_executions_push(mid.events@, Event::Reused(key), k);
                        }
                        assert forall|k: Key| k != key && comp.rank(k) >= comp.rank(key) implies {
                            &&& #[trigger] self.cached(k) == old(self).cached(k)
                            &&& executions(self.events(), k) == executions(old(self).events(), k)
                        } by {
                            assert(self.cached(k) == mid.cached(k));
                            assert(mid.cached(k) == old(self).cached(k));
                        }
                        assert(mid.cached(key) == old(self).cached(key));
                        lemma_trace_gives_value(
                            comp,
                            inputs.snapshot(at),
                            key,
                            mid.nodes@[i as int].reads@,
                            v,
                        );
                    }
                    return Resolved::Value(v);
                },
                Check::Cancelled => {
                    return Resolved::Cancelled;
                },
                Check::Changed => {},
            }
        }
        let ghost mid = *self;
        let r = self.execute(comp, inputs, slot, key, at, cancel);
        proof {
            self.lemma_grows_trans(&mid, old(self));
            assert forall|k: Key| k != key && comp.rank(k) >= comp.rank(key) implies {
                &&& #[trigger] self.cached(k) == old(self).cached(k)
                &&& executions(self.events(), k) == executions(old(self).events(), k)
            } by {
                assert(self.cached(k) == mid.cached(k));
                assert(mid.cached(k) == old(self).cached(k));
            }
        }
        r
    }
}

/// How the check of a node's recorded reads ended.
enum Check {
    Unchanged,
    Changed,
    Cancelled,
}

} // verus!
