//! What holds of requests in general: reuse without recomputation,
//! recomputation after a change, repetition, and cancellation.

use vstd::prelude::*;
use crate::computation::is_value_of;
use crate::computation::lemma_same_sym;
use crate::computation::lemma_same_trans;
use crate::computation::eval;
use crate::computation::reads_unchanged;
use crate::computation::Computations;
use crate::computation::Eval;
use crate::graph::answers;
use crate::graph::executions;
use crate::graph::Graph;
use crate::graph::Resolved;
use crate::inputs::Inputs;
use crate::inputs::Version;
use crate::key::Key;
use crate::key::KeyKind;
use crate::share::Share;

verus! {

/// The value of `key` at version `to` passes the key's equality test
/// against the value it had at version `from`.
pub open spec fn same_between<V: Share, C: Computations<V>>(
    comp: &C,
    inputs: &Inputs<V>,
    key: Key,
    from: Version,
    to: Version,
) -> bool {
    match (eval(comp, inputs.snapshot(from), key), eval(comp, inputs.snapshot(to), key)) {
        (Eval::Value(a), Eval::Value(b)) => comp.spec_same(key, b, a),
        _ => false,
    }
}

/// Early cutoff. Let the value of `key` be remembered for version
/// `from`, and let every key that its last run read have, at version
/// `to`, a value that passes the equality test against the one it had
/// at `from`. Then a request for `key` at `to` does not start the key's
/// computation, and the value it returns is the remembered one.
pub proof fn law_unchanged_reads_are_reused<V: Share, C: Computations<V>>(
    before: &Graph<V>,
    after: &Graph<V>,
    comp: &C,
    inputs: &Inputs<V>,
    key: Key,
    from: Version,
    to: Version,
    cancelled: bool,
    r: Resolved<V>,
)
    requires
        before.wf(comp, inputs),
        Graph::resolution(before, after, comp, inputs, key, to, cancelled, r),
        before.cached(key) matches Some(c) && c.covers(from) && forall|i: int|
            0 <= i < c.reads.len() ==> same_between(comp, inputs, (#[trigger] c.reads[i]).0, from, to),
    ensures
        executions(after.events(), key) == executions(before.events(), key),
        r matches Resolved::Value(v) ==> v == before.cached(key).unwrap().value,
        !cancelled ==> !(r is Missing),
{
    let c = before.cached(key).unwrap();
    before.lemma_wf_is_lawful(comp, inputs);
    before.lemma_cached_is_value(comp, inputs, key, from);
    assert forall|i: int| 0 <= i < c.reads.len() implies #[trigger] is_value_of(
        comp,
        inputs.snapshot(to),
        c.reads[i].0,
        c.reads[i].1,
    ) by {
        let dep = c.reads[i].0;
        assert(same_between(comp, inputs, dep, from, to));
        assert(is_value_of(comp, inputs.snapshot(from), dep, c.reads[i].1));
        let was = eval(comp, inputs.snapshot(from), dep)->Value_0;
        let is = eval(comp, inputs.snapshot(to), dep)->Value_0;
        lemma_same_trans(comp, dep, is, was, c.reads[i].1);
    }
    assert(reads_unchanged(comp, inputs.snapshot(to), c.reads));
    assert(before.fresh(comp, inputs, key, to));
    if !(r is Cancelled) {
        lemma_fresh_has_value(before, comp, inputs, key, to);
    }
}

/// Where the remembered value of a key can be kept at a version, it is
/// the key's value there, as far as the key's equality test can tell.
proof fn lemma_fresh_has_value<V: Share, C: Computations<V>>(
    g: &Graph<V>,
    comp: &C,
    inputs: &Inputs<V>,
    key: Key,
    at: Version,
)
    requires
        g.wf(comp, inputs),
        g.fresh(comp, inputs, key, at),
    ensures
        is_value_of(comp, inputs.snapshot(at), key, g.cached(key).unwrap().value),
{
    let c = g.cached(key).unwrap();
    g.lemma_wf_is_lawful(comp, inputs);
    g.lemma_cached_is_trace(comp, inputs, key);
    if c.covers(at) {
        g.lemma_cached_is_value(comp, inputs, key, at);
    } else {
        crate::computation::lemma_trace_gives_value(comp, inputs.snapshot(at), key, c.reads, c.value);
    }
}

/// Invalidation. Let the value of the computed key `key` be remembered
/// for version `from` and not for version `to`, and let one of the
/// keys that its last run read have, at `to`, a value that does not
/// pass the equality test against the one it had at `from`, or none.
/// Then a request for `key` at `to` that is not cancelled starts the
/// key's computation exactly once and returns the key's value at
/// `to`, as far as the key's equality test can tell.
pub proof fn law_changed_read_is_recomputed<V: Share, C: Computations<V>>(
    before: &Graph<V>,
    after: &Graph<V>,
    comp: &C,
    inputs: &Inputs<V>,
    key: Key,
    from: Version,
    to: Version,
    cancelled: bool,
    r: Resolved<V>,
    changed: int,
)
    requires
        before.wf(comp, inputs),
        Graph::resolution(before, after, comp, inputs, key, to, cancelled, r),
        !(r is Cancelled),
        before.cached(key) matches Some(c) && c.covers(from) && !c.covers(to) && 0 <= changed
            < c.reads.len() && !same_between(comp, inputs, c.reads[changed].0, from, to),
    ensures
        executions(after.events(), key) == executions(before.events(), key) + 1,
        answers(comp, inputs.snapshot(to), key, r),
{
    let c = before.cached(key).unwrap();
    let dep = c.reads[changed].0;
    let recorded = c.reads[changed].1;
    before.lemma_wf_is_lawful(comp, inputs);
    before.lemma_cached_is_value(comp, inputs, key, from);
    assert(is_value_of(comp, inputs.snapshot(from), dep, recorded));
    if is_value_of(comp, inputs.snapshot(to), dep, recorded) {
        let was = eval(comp, inputs.snapshot(from), dep)->Value_0;
        let is = eval(comp, inputs.snapshot(to), dep)->Value_0;
        lemma_same_sym(comp, dep, was, recorded);
        lemma_same_trans(comp, dep, is, recorded, was);
    }
    assert(!reads_unchanged(comp, inputs.snapshot(to), c.reads));
    assert(!before.fresh(comp, inputs, key, to));
}

/// No stale reads. Where the value that is remembered of the computed
/// key `key` is not its value at version `to`, by the key's equality
/// test, a request for `key` at `to` that is not cancelled starts the
/// key's computation exactly once and returns the value at `to`,
/// which is then what is remembered.
pub proof fn law_changed_value_is_recomputed<V: Share, C: Computations<V>>(
    before: &Graph<V>,
    after: &Graph<V>,
    comp: &C,
    inputs: &Inputs<V>,
    key: Key,
    to: Version,
    cancelled: bool,
    r: Resolved<V>,
)
    requires
        before.wf(comp, inputs),
        Graph::resolution(before, after, comp, inputs, key, to, cancelled, r),
        key.kind == KeyKind::Computed,
        !(r is Cancelled),
        before.cached(key) matches Some(c) && !is_value_of(comp, inputs.snapshot(to), key, c.value),
    ensures
        executions(after.events(), key) == executions(before.events(), key) + 1,
        answers(comp, inputs.snapshot(to), key, r),
        r matches Resolved::Value(v) ==> after.cached(key) matches Some(c) && c.value == v,
{
    if before.fresh(comp, inputs, key, to) {
        lemma_fresh_has_value(before, comp, inputs, key, to);
    }
}

/// Idempotence. Of two requests for the same key at the same version,
/// made one after the other, where the first returned a value and the
/// second's cancellation signal is not tripped, the second returns the
/// same value and does not start the key's computation.
pub proof fn law_repeated_request_is_served_from_memory<V: Share, C: Computations<V>>(
    first: &Graph<V>,
    second: &Graph<V>,
    third: &Graph<V>,
    comp: &C,
    inputs: &Inputs<V>,
    key: Key,
    at: Version,
    cancelled: bool,
    r1: Resolved<V>,
    r2: Resolved<V>,
)
    requires
        first.wf(comp, inputs),
        second.wf(comp, inputs),
        Graph::resolution(first, second, comp, inputs, key, at, cancelled, r1),
        Graph::resolution(second, third, comp, inputs, key, at, false, r2),
        r1 is Value,
    ensures
        r2 == r1,
        executions(third.events(), key) == executions(second.events(), key),
{
    if key.kind == KeyKind::Computed {
        assert(second.fresh(comp, inputs, key, at));
    }
}

/// Cancellation safety. A request that was cancelled leaves what is
/// remembered of its key as it was, so that nothing of the abandoned
/// run can be read later; and the next request for the key that is not
/// cancelled starts the computation afresh wherever the first would
/// have had to.
pub proof fn law_cancelled_request_commits_nothing<V: Share, C: Computations<V>>(
    first: &Graph<V>,
    second: &Graph<V>,
    third: &Graph<V>,
    comp: &C,
    inputs: &Inputs<V>,
    key: Key,
    at: Version,
    cancelled1: bool,
    cancelled2: bool,
    r1: Resolved<V>,
    r2: Resolved<V>,
)
    requires
        Graph::resolution(first, second, comp, inputs, key, at, cancelled1, r1),
        Graph::resolution(second, third, comp, inputs, key, at, cancelled2, r2),
        r1 is Cancelled,
        key.kind == KeyKind::Computed,
    ensures
        second.cached(key) == first.cached(key),
        !first.fresh(comp, inputs, key, at) && !(r2 is Cancelled) ==> executions(third.events(), key)
            == executions(second.events(), key) + 1 && answers(comp, inputs.snapshot(at), key, r2),
{
}

} // verus!
