//! The cancellable task substrate: the table of computations that are
//! in flight, through which a computation is spawned, awaited and
//! cancelled, and through which concurrent requests for the same key
//! at the same version share one run.

use vstd::prelude::*;
use crate::cancellation::CancellationContext;
use crate::computation::Computations;
use crate::graph::executions;
use crate::graph::Graph;
use crate::graph::Resolved;
use crate::inputs::Inputs;
use crate::inputs::Version;
use crate::key::Key;
use crate::share::Share;

verus! {

/// The handle of a task. Dropping a handle does nothing to the task.
#[derive(Clone, Copy, Debug, PartialEq, Eq, Structural, Hash)]
pub struct TaskId(pub usize);

/// One unit of work: the computation of a key at a version.
pub struct Task<V> {
    /// The key whose value the task computes.
    pub key: Key,
    /// The version at which it computes it.
    pub version: Version,
    /// The signal through which the task is cancelled.
    pub cancellation: CancellationContext,
    /// How the task ended, once it has.
    pub outcome: Option<Resolved<V>>,
}

/// What a requester is to do.
#[derive(Clone, Copy, Debug, PartialEq, Eq, Structural)]
pub enum Dispatch {
    /// No run was in flight: the requester is to run the new task.
    Start(TaskId),
    /// A run is in flight: its result is to be awaited.
    Join(TaskId),
}

impl Dispatch {
    /// The task that the requester is to run or to await.
    pub open spec fn spec_task(&self) -> TaskId {
        match *self {
            Dispatch::Start(id) => id,
            Dispatch::Join(id) => id,
        }
    }

    /// The task that the requester is to run or to await.
    #[verifier::when_used_as_spec(spec_task)]
    pub fn task(&self) -> (id: TaskId)
        ensures
            id == self.spec_task(),
    {
        match *self {
            Dispatch::Start(id) => id,
            Dispatch::Join(id) => id,
        }
    }
}

/// The task is still running and has not been asked to stop, so that a
/// request for `key` at `version` can share its result.
pub open spec fn joinable<V>(t: Task<V>, key: Key, version: Version) -> bool {
    &&& t.key == key
    &&& t.version == version
    &&& t.outcome.is_none()
    &&& !t.cancellation.is_cancelled()
}

/// No two tasks that can be joined compute the same key at the same
/// version.
pub open spec fn single_flight<V>(tasks: Seq<Task<V>>) -> bool {
    forall|i: int, j: int|
        0 <= i < j < tasks.len() ==> !(joinable(#[trigger] tasks[i], tasks[i].key, tasks[i].version)
            && joinable(#[trigger] tasks[j], tasks[i].key, tasks[i].version))
}

/// `after` is `before` with one running task for `key` at `version`
/// added at the end, whose cancellation signal is `cancellation`.
pub open spec fn spawned<V>(
    before: Seq<Task<V>>,
    after: Seq<Task<V>>,
    key: Key,
    version: Version,
    cancellation: CancellationContext,
) -> bool {
    &&& after.len() == before.len() + 1
    &&& after.drop_last() == before
    &&& after.last().key == key
    &&& after.last().version == version
    &&& after.last().cancellation == cancellation
    &&& after.last().outcome.is_none()
}

/// What a request for `key` at `version` makes of the tasks `before`:
/// it joins the oldest task that is in flight for them, or, where
/// there is none, adds a task at the end and tells the requester to
/// start it.
pub open spec fn requested<V>(
    before: Seq<Task<V>>,
    after: Seq<Task<V>>,
    key: Key,
    version: Version,
    d: Dispatch,
) -> bool {
    match d {
        Dispatch::Join(id) => {
            &&& 0 <= id.0 < before.len()
            &&& joinable(before[id.0 as int], key, version)
            &&& forall|i: int| 0 <= i < id.0 ==> !joinable(#[trigger] before[i], key, version)
            &&& after == before
        },
        Dispatch::Start(id) => {
            &&& id.0 == before.len()
            &&& forall|i: int| 0 <= i < before.len() ==> !joinable(#[trigger] before[i], key, version)
            &&& exists|cancellation: CancellationContext|
                !cancellation.is_cancelled() && #[trigger] spawned(
                    before,
                    after,
                    key,
                    version,
                    cancellation,
                )
        },
    }
}

/// `after` is `before` but for the task at `id`, which is `task`.
pub open spec fn replaced<V>(before: Seq<Task<V>>, after: Seq<Task<V>>, id: TaskId, task: Task<V>) -> bool {
    &&& 0 <= id.0 < before.len()
    &&& after == before.update(id.0 as int, task)
}

/// A step that changes one task, and neither the key nor the version
/// of it nor makes it joinable, keeps single flight.
proof fn lemma_replaced_keeps_single_flight<V>(
    before: Seq<Task<V>>,
    after: Seq<Task<V>>,
    id: TaskId,
    task: Task<V>,
)
    requires
        single_flight(before),
        replaced(before, after, id, task),
        task.key == before[id.0 as int].key,
        task.version == before[id.0 as int].version,
        joinable(task, task.key, task.version) ==> joinable(
            before[id.0 as int],
            task.key,
            task.version,
        ),
    ensures
        single_flight(after),
{
    assert forall|a: int, b: int| 0 <= a < b < after.len() implies !(joinable(
        #[trigger] after[a],
        after[a].key,
        after[a].version,
    ) && joinable(#[trigger] after[b], after[a].key, after[a].version)) by {
        assert(!(joinable(before[a], before[a].key, before[a].version) && joinable(
            before[b],
            before[a].key,
            before[a].version,
        )));
    }
}

/// The table of tasks.
pub struct Spawner<V> {
    tasks: Vec<Task<V>>,
}

impl<V: Share> Spawner<V> {
    /// Every task ever created, in the order of creation. A task's
    /// handle is its position.
    pub closed spec fn tasks(&self) -> Seq<Task<V>> {
        self.tasks@
    }

    /// A table without tasks.
    pub fn new() -> (s: Self)
        ensures
            s.tasks().len() == 0,
    {
        Spawner { tasks: Vec::new() }
    }

    /// The number of tasks ever created: the handles below it name a
    /// task.
    pub fn task_count(&self) -> (n: usize)
        ensures
            n == self.tasks().len(),
    {
        self.tasks.len()
    }

    /// Creates a running task for `key` at `version` that is cancelled
    /// through `cancellation`, whatever else is in flight.
    pub fn spawn(&mut self, key: Key, version: Version, cancellation: CancellationContext) -> (id:
        TaskId)
        ensures
            id.0 == old(self).tasks().len(),
            spawned(old(self).tasks(), final(self).tasks(), key, version, cancellation),
    {
        let id = TaskId(self.tasks.len());
        self.tasks.push(Task { key, version, cancellation, outcome: None });
        proof {
            assert(self.tasks@.drop_last() =~= old(self).tasks@);
        }
        id
    }

    /// Requests the value of `key` at `version`. Where a run for them is
    /// in flight the requester joins it; otherwise a task is created
    /// and the requester is told to start it. Requests alone never put
    /// two runs for the same key and version in flight.
    pub fn request(&mut self, key: Key, version: Version) -> (d: Dispatch)
        ensures
            requested(old(self).tasks(), final(self).tasks(), key, version, d),
            single_flight(old(self).tasks()) ==> single_flight(final(self).tasks()),
    {
        let mut i: usize = 0;
        while i < self.tasks.len()
            invariant
                i <= self.tasks@.len(),
                self.tasks@ == old(self).tasks@,
                forall|j: int| 0 <= j < i ==> !joinable(#[trigger] self.tasks@[j], key, version),
            decreases self.tasks@.len() - i,
        {
            let t = &self.tasks[i];
            if t.key.same_key(&key) && t.version.0 == version.0 && t.outcome.is_none()
                && !t.cancellation.is_cancelled() {
                return Dispatch::Join(TaskId(i));
            }
            i = i + 1;
        }
        let fresh = CancellationContext::new();
        let id = self.spawn(key, version, fresh);
        proof {
            let before = old(self).tasks@;
            assert(spawned(before, self.tasks@, key, version, fresh));
            if single_flight(before) {
                assert forall|a: int, b: int| 0 <= a < b < self.tasks@.len() implies !(joinable(
                    #[trigger] self.tasks@[a],
                    self.tasks@[a].key,
                    self.tasks@[a].version,
                ) && joinable(
                    #[trigger] self.tasks@[b],
                    self.tasks@[a].key,
                    self.tasks@[a].version,
                )) by {
                    assert(self.tasks@.drop_last()[a] == before[a]);
                    if b < before.len() {
                        assert(self.tasks@.drop_last()[b] == before[b]);
                        assert(!(joinable(before[a], before[a].key, before[a].version) && joinable(
                            before[b],
                            before[a].key,
                            before[a].version,
                        )));
                    } else {
                        assert(self.tasks@[b] == self.tasks@.last());
                        assert(!joinable(before[a], key, version));
                    }
                }
            }
        }
        Dispatch::Start(id)
    }

    /// Asks the task to stop. A task that has ended keeps its outcome,
    /// and a handle that names no task is ignored.
    pub fn cancel(&mut self, id: TaskId)
        ensures
            id.0 >= old(self).tasks().len() ==> final(self).tasks() == old(self).tasks(),
            id.0 < old(self).tasks().len() ==> {
                let was = old(self).tasks()[id.0 as int];
                let is = final(self).tasks()[id.0 as int];
                &&& replaced(old(self).tasks(), final(self).tasks(), id, is)
                &&& is.key == was.key
                &&& is.version == was.version
                &&& is.outcome == was.outcome
                &&& was.outcome.is_none() ==> is.cancellation.is_cancelled()
                &&& was.outcome.is_some() ==> is.cancellation == was.cancellation
            },
            single_flight(old(self).tasks()) ==> single_flight(final(self).tasks()),
    {
        if id.0 < self.tasks.len() {
            if self.tasks[id.0].outcome.is_none() {
                self.tasks[id.0].cancellation.cancel();
            }
            proof {
                let is = self.tasks@[id.0 as int];
                assert(self.tasks@ =~= old(self).tasks@.update(id.0 as int, is));
                if single_flight(old(self).tasks@) {
                    lemma_replaced_keeps_single_flight(old(self).tasks@, self.tasks@, id, is);
                }
            }
        }
    }

    /// The suspension point of a running task: whether it has been
    /// asked to stop and is to give up without publishing anything.
    pub fn must_stop(&self, id: TaskId) -> (b: bool)
        requires
            id.0 < self.tasks().len(),
        ensures
            b == self.tasks()[id.0 as int].cancellation.is_cancelled(),
    {
        self.tasks[id.0].cancellation.is_cancelled()
    }

    /// How the task ended: nothing while it runs, then the one outcome
    /// that every requester who joined it observes.
    pub fn outcome(&self, id: TaskId) -> (r: Option<Resolved<V>>)
        requires
            id.0 < self.tasks().len(),
        ensures
            r == self.tasks()[id.0 as int].outcome,
    {
        match &self.tasks[id.0].outcome {
            Some(r) => Some(r.share()),
            None => None,
        }
    }

    /// Records how the work of a running task ended. Where the task was
    /// asked to stop in the meantime, what the work produced is
    /// discarded and the task ends as cancelled. A task that has ended
    /// keeps the outcome it has. Returns whether `result` was
    /// recorded.
    pub fn finish(&mut self, id: TaskId, result: Resolved<V>) -> (recorded: bool)
        requires
            id.0 < old(self).tasks().len(),
        ensures
            ({
                let was = old(self).tasks()[id.0 as int];
                let is = final(self).tasks()[id.0 as int];
                &&& replaced(old(self).tasks(), final(self).tasks(), id, is)
                &&& is.key == was.key
                &&& is.version == was.version
                &&& is.cancellation == was.cancellation
                &&& is.outcome == match was.outcome {
                    Some(o) => Some(o),
                    None => if was.cancellation.is_cancelled() {
                        Some(Resolved::<V>::Cancelled)
                    } else {
                        Some(result)
                    },
                }
                &&& recorded == (was.outcome.is_none() && !was.cancellation.is_cancelled())
            }),
            single_flight(old(self).tasks()) ==> single_flight(final(self).tasks()),
    {
        if self.tasks[id.0].outcome.is_some() {
            proof {
                assert(self.tasks@ =~= old(self).tasks@.update(id.0 as int, self.tasks@[id.0 as int]));
            }
            return false;
        }
        let stopped = self.tasks[id.0].cancellation.is_cancelled();
        if stopped {
            self.tasks[id.0].outcome = Some(Resolved::Cancelled);
        } else {
            self.tasks[id.0].outcome = Some(result);
        }
        proof {
            let is = self.tasks@[id.0 as int];
            assert(self.tasks@ =~= old(self).tasks@.update(id.0 as int, is));
            if single_flight(old(self).tasks@) {
                lemma_replaced_keeps_single_flight(old(self).tasks@, self.tasks@, id, is);
            }
        }
        !stopped
    }

    /// Runs the work of the task to its end, unless it has ended
    /// already: brings the task's key up to date at the task's version
    /// under the task's cancellation signal, and records how that
    /// ended as the task's outcome. Returns whether the work was run.
    pub fn run<C: Computations<V>>(
        &mut self,
        id: TaskId,
        graph: &mut Graph<V>,
        comp: &C,
        inputs: &Inputs<V>,
    ) -> (ran: bool)
        requires
            id.0 < old(self).tasks().len(),
            old(graph).wf(comp, inputs),
            old(self).tasks()[id.0 as int].version.0 <= inputs.current().0,
        ensures
            final(graph).wf(comp, inputs),
            replaced(old(self).tasks(), final(self).tasks(), id, final(self).tasks()[id.0 as int]),
            single_flight(old(self).tasks()) ==> single_flight(final(self).tasks()),
            ran == old(self).tasks()[id.0 as int].outcome.is_none(),
            !ran ==> *final(graph) == *old(graph) && final(self).tasks() == old(self).tasks(),
            ran ==> ({
                let was = old(self).tasks()[id.0 as int];
                let is = final(self).tasks()[id.0 as int];
                &&& is.key == was.key
                &&& is.version == was.version
                &&& is.cancellation == was.cancellation
                &&& is.outcome matches Some(r) && Graph::resolution(
                    old(graph),
                    final(graph),
                    comp,
                    inputs,
                    was.key,
                    was.version,
                    was.cancellation.is_cancelled(),
                    r,
                )
            }),
    {
        if self.tasks[id.0].outcome.is_some() {
            proof {
                assert(self.tasks@ =~= old(self).tasks@.update(id.0 as int, self.tasks@[id.0 as int]));
            }
            return false;
        }
        let key = self.tasks[id.0].key;
        let version = self.tasks[id.0].version;
        let cancellation = self.tasks[id.0].cancellation;
        let r = graph.resolve(comp, inputs, key, version, &cancellation);
        self.finish(id, r);
        true
    }

    /// Awaits the task: runs its work to the end if it has not ended
    /// yet, and returns its outcome, which is the value, the missing
    /// input that the work met, or that the task was cancelled.
    pub fn await_result<C: Computations<V>>(
        &mut self,
        id: TaskId,
        graph: &mut Graph<V>,
        comp: &C,
        inputs: &Inputs<V>,
    ) -> (r: Resolved<V>)
        requires
            id.0 < old(self).tasks().len(),
            old(graph).wf(comp, inputs),
            old(self).tasks()[id.0 as int].version.0 <= inputs.current().0,
        ensures
            final(graph).wf(comp, inputs),
            replaced(old(self).tasks(), final(self).tasks(), id, final(self).tasks()[id.0 as int]),
            single_flight(old(self).tasks()) ==> single_flight(final(self).tasks()),
            final(self).tasks()[id.0 as int].outcome == Some(r),
            match old(self).tasks()[id.0 as int].outcome {
                Some(o) => r == o && *final(graph) == *old(graph) && final(self).tasks() == old(
                    self,
                ).tasks(),
                None => {
                    let was = old(self).tasks()[id.0 as int];
                    let is = final(self).tasks()[id.0 as int];
                    &&& is.key == was.key
                    &&& is.version == was.version
                    &&& is.cancellation == was.cancellation
                    &&& Graph::resolution(
                        old(graph),
                        final(graph),
                        comp,
                        inputs,
                        was.key,
                        was.version,
                        was.cancellation.is_cancelled(),
                        r,
                    )
                },
            },
    {
        self.run(id, graph, comp, inputs);
        match &self.tasks[id.0].outcome {
            Some(r) => r.share(),
            None => Resolved::Cancelled,
        }
    }
}

/// Coalescing. Of any number of requests for the same key at the same
/// version that arrive one after the other while nothing else happens
/// to the tasks, only the first can be told to start a task; every
/// later one joins the task of the first and changes nothing. Running
/// that one task starts the key's computation at most once, and all
/// requesters observe the task's one outcome.
pub proof fn law_concurrent_requests_share_one_run<V: Share, C: Computations<V>>(
    states: Seq<Seq<Task<V>>>,
    dispatches: Seq<Dispatch>,
    key: Key,
    version: Version,
    before: &Graph<V>,
    after: &Graph<V>,
    comp: &C,
    inputs: &Inputs<V>,
    cancelled: bool,
    r: Resolved<V>,
)
    requires
        dispatches.len() >= 1,
        states.len() == dispatches.len() + 1,
        forall|i: int|
            0 <= i < dispatches.len() ==> requested(
                states[i],
                states[i + 1],
                key,
                version,
                #[trigger] dispatches[i],
            ),
        Graph::resolution(before, after, comp, inputs, key, version, cancelled, r),
    ensures
        forall|i: int|
            1 <= i < dispatches.len() ==> #[trigger] dispatches[i] == Dispatch::Join(
                dispatches[0].task(),
            ) && states[i + 1] == states[1],
        executions(after.events(), key) <= executions(before.events(), key) + 1,
{
    assert forall|i: int| 1 <= i < dispatches.len() implies #[trigger] dispatches[i]
        == Dispatch::Join(dispatches[0].task()) && states[i + 1] == states[1] by {
        lemma_later_requests_join(states, dispatches, key, version, i);
    }
}

proof fn lemma_later_requests_join<V>(
    states: Seq<Seq<Task<V>>>,
    dispatches: Seq<Dispatch>,
    key: Key,
    version: Version,
    upto: int,
)
    requires
        dispatches.len() >= 1,
        states.len() == dispatches.len() + 1,
        forall|i: int|
            0 <= i < dispatches.len() ==> requested(
                states[i],
                states[i + 1],
                key,
                version,
                #[trigger] dispatches[i],
            ),
        1 <= upto < dispatches.len(),
    ensures
        dispatches[upto] == Dispatch::Join(dispatches[0].task()),
        states[upto + 1] == states[1],
    decreases upto,
{
    if upto > 1 {
        lemma_later_requests_join(states, dispatches, key, version, upto - 1);
    }
    let first = dispatches[0].task();
    let held = states[1];
    assert(requested(states[0], states[1], key, version, dispatches[0]));
    // The task of the first request is the oldest that can be joined.
    assert(0 <= first.0 < held.len() && joinable(held[first.0 as int], key, version) && forall|
        i: int,
    | 0 <= i < first.0 ==> !joinable(#[trigger] held[i], key, version)) by {
        match dispatches[0] {
            Dispatch::Join(id) => {},
            Dispatch::Start(id) => {
                assert(held.last() == held[held.len() - 1]);
                assert forall|i: int| 0 <= i < first.0 implies !joinable(
                    #[trigger] held[i],
                    key,
                    version,
                ) by {
                    assert(held.drop_last()[i] == states[0][i]);
                }
            },
        }
    }
    assert(states[upto] == held);
    assert(requested(states[upto], states[upto + 1], key, version, dispatches[upto]));
    match dispatches[upto] {
        Dispatch::Join(id) => {
            if id.0 < first.0 {
                assert(!joinable(held[id.0 as int], key, version));
            } else if first.0 < id.0 {
                assert(!joinable(held[first.0 as int], key, version));
            }
        },
        Dispatch::Start(id) => {
            assert(!joinable(held[first.0 as int], key, version));
        },
    }
}

/// Restart after cancellation. Once the task in flight for a key at a
/// version has been asked to stop, no request joins it any more; of
/// two requests that follow, the second joins the task of the first,
/// so that at most one of them starts the work again.
pub proof fn law_cancelled_task_is_restarted_once<V>(
    tasks: Seq<Task<V>>,
    then: Seq<Task<V>>,
    last: Seq<Task<V>>,
    stopped: TaskId,
    key: Key,
    version: Version,
    d1: Dispatch,
    d2: Dispatch,
)
    requires
        0 <= stopped.0 < tasks.len(),
        tasks[stopped.0 as int].cancellation.is_cancelled(),
        requested(tasks, then, key, version, d1),
        requested(then, last, key, version, d2),
    ensures
        d1.task() != stopped,
        d2 == Dispatch::Join(d1.task()),
        last == then,
{
    let states = seq![tasks, then, last];
    let dispatches = seq![d1, d2];
    assert(states[0] == tasks && states[1] == then && states[2] == last);
    assert(dispatches[0] == d1 && dispatches[1] == d2);
    assert forall|i: int| 0 <= i < dispatches.len() implies requested(
        states[i],
        states[i + 1],
        key,
        version,
        #[trigger] dispatches[i],
    ) by {}
    lemma_later_requests_join(states, dispatches, key, version, 1);
}

} // verus!
