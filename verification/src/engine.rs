//! The engine: the computations, the injected values and the memoization
//! graph under one roof, and the contexts through which values are
//! requested.

use vstd::prelude::*;
use crate::cancellation::CancellationContext;
use crate::computation::eval;
use crate::computation::lawful;
use crate::computation::Computations;
use crate::computation::Eval;
use crate::graph::executions;
use crate::graph::Cached;
use crate::graph::Event;
use crate::graph::Graph;
use crate::graph::Resolved;
use crate::inputs::assigned;
use crate::inputs::lookup;
use crate::inputs::Inputs;
use crate::inputs::Updater;
use crate::inputs::Version;
use crate::key::Key;
use crate::share::Share;

verus! {

/// An incremental computation engine over values of type `V` whose
/// computed keys are defined by `C`.
pub struct Engine<V, C> {
    comp: C,
    inputs: Inputs<V>,
    graph: Graph<V>,
}

/// A handle for requesting values at one version. It is bound to the
/// version that was current when it was made and carries the
/// cancellation signal for the requests made through it.
#[derive(Clone, Copy, Debug)]
pub struct ComputationContext {
    version: Version,
    cancellation: CancellationContext,
}

impl<V: Share, C: Computations<V>> Engine<V, C> {
    /// The computations that define the computed keys.
    pub closed spec fn spec_computations(&self) -> &C {
        &self.comp
    }

    /// The store of injected values.
    pub closed spec fn spec_inputs(&self) -> &Inputs<V> {
        &self.inputs
    }

    /// The memoization graph.
    pub closed spec fn spec_graph(&self) -> &Graph<V> {
        &self.graph
    }

    /// The computations that define the computed keys.
    #[verifier::when_used_as_spec(spec_computations)]
    pub fn computations(&self) -> (c: &C)
        ensures
            c == self.spec_computations(),
    {
        &self.comp
    }

    /// The store of injected values.
    #[verifier::when_used_as_spec(spec_inputs)]
    pub fn inputs(&self) -> (i: &Inputs<V>)
        ensures
            i == self.spec_inputs(),
    {
        &self.inputs
    }

    /// The memoization graph.
    #[verifier::when_used_as_spec(spec_graph)]
    pub fn graph(&self) -> (g: &Graph<V>)
        ensures
            g == self.spec_graph(),
    {
        &self.graph
    }

    /// The newest committed version.
    pub open spec fn current(&self) -> Version {
        self.inputs().current()
    }

    /// The value of `key` at version `at`.
    pub open spec fn value(&self, key: Key, at: Version) -> Eval<V> {
        eval(self.computations(), self.inputs().snapshot(at), key)
    }

    /// What is remembered of `key`.
    pub open spec fn cached(&self, key: Key) -> Option<Cached<V>> {
        self.graph().cached(key)
    }

    /// How often the computation of `key` has been started.
    pub open spec fn runs(&self, key: Key) -> nat {
        executions(self.graph().events(), key)
    }

    /// The store and the graph are consistent with each other.
    pub open spec fn wf(&self) -> bool {
        &&& self.inputs().wf()
        &&& self.graph().wf(self.computations(), self.inputs())
    }

    /// An engine at version zero that holds no injected value and
    /// remembers nothing, for computations that do alike on what their
    /// equality tests take for the same.
    pub fn new(comp: C) -> (e: Self)
        requires
            lawful(&comp),
        ensures
            e.wf(),
            *e.computations() == comp,
            e.current() == Version(0),
            e.inputs().entries().len() == 0,
            forall|k: Key| e.cached(k).is_none(),
            e.graph().events().len() == 0,
    {
        let inputs = Inputs::new();
        let graph = Graph::new();
        proof {
            graph.lemma_empty_is_wf(&comp, &inputs);
        }
        Engine { comp, inputs, graph }
    }

    /// The newest committed version.
    pub fn current_version(&self) -> (v: Version)
        ensures
            v == self.current(),
    {
        self.inputs.current_version()
    }

    /// Starts a batch of updates to injected keys.
    pub fn begin_update(&self) -> (u: Updater<V>)
        ensures
            u.base() == self.current(),
            u.pending().len() == 0,
    {
        self.inputs.begin_update()
    }

    /// Commits a batch of updates. The version advances by exactly one;
    /// at the new version each key of the batch has the value the
    /// batch gave it last and every other injected key the value it
    /// had; at every earlier version every key, injected or computed,
    /// keeps its value; and nothing that the graph remembers is
    /// touched.
    pub fn commit(&mut self, batch: Updater<V>) -> (v: Version)
        requires
            old(self).wf(),
            old(self).current().0 < u64::MAX,
        ensures
            final(self).wf(),
            v.0 == old(self).current().0 + 1,
            final(self).current() == v,
            final(self).computations() == old(self).computations(),
            final(self).graph() == old(self).graph(),
            forall|at: Version|
                at.0 <= old(self).current().0 ==> #[trigger] final(self).inputs().snapshot(at)
                    == old(self).inputs().snapshot(at),
            forall|key: Key, at: Version|
                at.0 <= old(self).current().0 ==> #[trigger] final(self).value(key, at) == old(
                    self,
                ).value(key, at),
            forall|k: Key| #[trigger]
                lookup(final(self).inputs().entries(), k, v) == match assigned(batch.pending(), k) {
                    Some(x) => Some(x),
                    None => lookup(old(self).inputs().entries(), k, old(self).current()),
                },
    {
        let ghost before = self.inputs;
        let v = batch.commit(&mut self.inputs);
        proof {
            self.graph.lemma_wf_carries_over(&self.comp, &before, &self.inputs);
            assert forall|key: Key, at: Version| at.0 <= before.current().0 implies #[trigger]
                self.value(key, at) == old(self).value(key, at) by {
                assert(self.inputs.snapshot(at) == before.snapshot(at));
            }
        }
        v
    }

    /// Hands out the record of what the graph did so far, and starts
    /// the record anew. Nothing else is touched.
    pub fn take_events(&mut self) -> (log: Vec<Event>)
        requires
            old(self).wf(),
        ensures
            final(self).wf(),
            log@ == old(self).graph().events(),
            final(self).graph().events().len() == 0,
            final(self).computations() == old(self).computations(),
            final(self).inputs() == old(self).inputs(),
            forall|k: Key| #[trigger] final(self).cached(k) == old(self).cached(k),
    {
        let ghost before = self.graph;
        let log = self.graph.take_events();
        proof {
            self.graph.lemma_remembers_as(&before, &self.comp, &self.inputs);
        }
        log
    }

    /// Forgets the versions before `keep`, which no context is bound to
    /// any more. Every key keeps its value at `keep` and at every
    /// later version, and what is remembered of a key stays, but for
    /// the versions before `keep`; what the keys were worth at earlier
    /// versions is lost.
    pub fn forget_before(&mut self, keep: Version)
        requires
            old(self).wf(),
            keep.0 <= old(self).current().0,
        ensures
            final(self).wf(),
            final(self).current() == old(self).current(),
            final(self).computations() == old(self).computations(),
            final(self).graph().events() == old(self).graph().events(),
            final(self).inputs().entries().len() <= old(self).inputs().entries().len(),
            forall|key: Key, at: Version|
                keep.0 <= at.0 ==> #[trigger] final(self).value(key, at) == old(self).value(key, at),
            forall|k: Key| #[trigger]
                final(self).cached(k) == match old(self).cached(k) {
                    Some(c) => Some(c.kept_from(keep)),
                    None => None,
                },
    {
        let ghost inputs = self.inputs;
        let ghost graph = self.graph;
        self.inputs.forget_before(keep);
        self.graph.forget_before(keep);
        proof {
            self.graph.lemma_forgets(&graph, keep, &self.comp, &inputs, &self.inputs);
            assert forall|key: Key, at: Version| keep.0 <= at.0 implies #[trigger] self.value(
                key,
                at,
            ) == old(self).value(key, at) by {
                assert(self.inputs.snapshot(at) == inputs.snapshot(at));
            }
        }
    }

    /// A context bound to the current version, not cancelled.
    pub fn context(&self) -> (ctx: ComputationContext)
        ensures
            ctx.version() == self.current(),
            !ctx.is_cancelled(),
    {
        ComputationContext { version: self.inputs.current_version(), cancellation: CancellationContext::new() }
    }

    /// Brings `key` up to date at version `at` and returns its value.
    pub fn resolve(&mut self, key: Key, at: Version, cancel: &CancellationContext) -> (r: Resolved<V>)
        requires
            old(self).wf(),
            at.0 <= old(self).current().0,
        ensures
            final(self).wf(),
            final(self).computations() == old(self).computations(),
            final(self).inputs() == old(self).inputs(),
            Graph::resolution(
                old(self).graph(),
                final(self).graph(),
                old(self).computations(),
                old(self).inputs(),
                key,
                at,
                cancel.is_cancelled(),
                r,
            ),
    {
        self.graph.resolve(&self.comp, &self.inputs, key, at, cancel)
    }
}

impl ComputationContext {
    /// The version that the context is bound to.
    pub closed spec fn spec_version(&self) -> Version {
        self.version
    }

    /// Whether the requests made through the context are cancelled.
    pub closed spec fn spec_is_cancelled(&self) -> bool {
        self.cancellation.is_cancelled()
    }

    /// The version that the context is bound to.
    #[verifier::when_used_as_spec(spec_version)]
    pub fn version(&self) -> (v: Version)
        ensures
            v == self.spec_version(),
    {
        self.version
    }

    /// Whether the requests made through the context are cancelled.
    #[verifier::when_used_as_spec(spec_is_cancelled)]
    pub fn is_cancelled(&self) -> (b: bool)
        ensures
            b == self.spec_is_cancelled(),
    {
        self.cancellation.is_cancelled()
    }

    /// The cancellation signal of the context.
    pub fn cancellation(&self) -> (c: &CancellationContext)
        ensures
            c.is_cancelled() == self.is_cancelled(),
    {
        &self.cancellation
    }

    /// Cancels every request made through the context from now on.
    pub fn cancel(&mut self)
        ensures
            final(self).is_cancelled(),
            final(self).version() == old(self).version(),
    {
        self.cancellation.cancel();
    }

    /// Whether a version newer than the context's own has been
    /// committed, so that work done through it serves a superseded
    /// snapshot.
    pub fn is_superseded(&self, current: Version) -> (b: bool)
        ensures
            b == (self.version().0 < current.0),
    {
        self.version.0 < current.0
    }

    /// The value of `key` at the context's version.
    pub fn compute<V: Share, C: Computations<V>>(&self, engine: &mut Engine<V, C>, key: Key) -> (r:
        Resolved<V>)
        requires
            old(engine).wf(),
            self.version().0 <= old(engine).current().0,
        ensures
            final(engine).wf(),
            final(engine).computations() == old(engine).computations(),
            final(engine).inputs() == old(engine).inputs(),
            Graph::resolution(
                old(engine).graph(),
                final(engine).graph(),
                old(engine).computations(),
                old(engine).inputs(),
                key,
                self.version(),
                self.is_cancelled(),
                r,
            ),
    {
        engine.resolve(key, self.version, &self.cancellation)
    }
}

} // verus!
