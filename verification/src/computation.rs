//! What a computation is, and what its value is.
//!
//! A computation is given as a step function: from the dependency values
//! it has been handed so far it either asks for one more key or finishes
//! with a value. Its dependencies are therefore discovered while it
//! runs, and it is deterministic in the values it has read.
//!
//! A computation that fails finishes with a value that says so. To the
//! engine a failure is a value like any other: it is remembered, and
//! compared by the key's equality test.
//!
//! What a key is worth is told up to the key's equality test: after an
//! early cutoff the engine keeps a value that was computed from values
//! which the tests take for the same as the present ones.

use vstd::prelude::*;
use crate::key::Key;
use crate::key::KeyKind;

verus! {

/// What a computation does next.
#[derive(Debug)]
pub enum Step<V> {
    /// It needs the value of this key before it can go on.
    Need(Key),
    /// It has finished with this value.
    Done(V),
}

/// What one call of a computation's step function came to.
#[derive(Debug)]
pub enum StepOutcome<V> {
    /// The computation took its next step.
    Step(Step<V>),
    /// The computation found itself cancelled and gave up.
    Cancelled,
}

/// The value of a key in a given state of the injected values.
pub enum Eval<V> {
    /// The key has this value.
    Value(V),
    /// The value rests on this key, which has none.
    Missing(Key),
}

/// The computations behind the computed keys, and the equality test on
/// the values of every key.
///
/// `rank` orders the keys so that a computation only reads keys of a
/// lower rank, and `max_reads` bounds how many keys one run reads: a
/// computation that read in a circle, or without end, would never
/// finish. The functions that describe the computations have bodies
/// that say nothing; an implementation states its own.
///
/// The equality test of a key is the implementation's to choose, and
/// may take values for the same that differ. What the engine relies
/// on is `lawful`: each test is an equivalence, and a computation does
/// alike on values that the tests take for the same.
pub trait Computations<V> {
    /// A measure that strictly falls from a key to each key it reads.
    open spec fn rank(&self, key: Key) -> nat {
        arbitrary()
    }

    /// An upper bound on the number of keys that one run of `key` reads.
    open spec fn max_reads(&self, key: Key) -> nat {
        arbitrary()
    }

    /// What the computation of `key` does after having read `reads`.
    open spec fn spec_step(&self, key: Key, reads: Seq<(Key, V)>) -> Step<V> {
        arbitrary()
    }

    /// Whether two values of `key` count as the same value.
    open spec fn spec_same(&self, key: Key, a: V, b: V) -> bool {
        a == b
    }

    /// Whether a computation can find itself cancelled while it runs.
    open spec fn interruptible(&self) -> bool {
        true
    }

    /// One step of the computation of `key`. Unless the computation
    /// finds itself cancelled, the step is the one that `spec_step`
    /// gives for what has been read.
    fn step(&self, key: &Key, reads: &Vec<(Key, V)>) -> (s: StepOutcome<V>)
        requires
            key.kind == KeyKind::Computed,
        ensures
            s is Cancelled ==> self.interruptible(),
            s matches StepOutcome::Step(t) ==> t == self.spec_step(*key, reads@),
            s matches StepOutcome::Step(Step::Need(d)) ==> self.rank(d) < self.rank(*key)
                && reads@.len() < self.max_reads(*key),
    ;

    /// The equality test on values of `key`: whether `a` and `b` count
    /// as the same value, so that what was computed from the one need
    /// not be computed again from the other.
    fn same(&self, key: &Key, a: &V, b: &V) -> (r: bool)
        ensures
            r == self.spec_same(*key, *a, *b),
    ;
}

/// The step that the computation of `key` may take after `reads`: it
/// reads a key of lower rank and stays within its bound.
pub open spec fn may_read<V, C: Computations<V>>(
    comp: &C,
    key: Key,
    reads: Seq<(Key, V)>,
    dep: Key,
) -> bool {
    comp.rank(dep) < comp.rank(key) && reads.len() < comp.max_reads(key)
}

/// The value of `key` when the injected values are `inputs`.
pub open spec fn eval<V, C: Computations<V>>(comp: &C, inputs: Map<Key, V>, key: Key) -> Eval<V>
    decreases comp.rank(key), comp.max_reads(key) + 1,
{
    if key.kind == KeyKind::Injected {
        if inputs.contains_key(key) {
            Eval::Value(inputs[key])
        } else {
            Eval::Missing(key)
        }
    } else {
        run(comp, inputs, key, Seq::empty())
    }
}

/// The value that the computation of `key` reaches from the point where
/// it has read `reads`. A read that the computation may not make
/// counts as a missing input of the key itself.
pub open spec fn run<V, C: Computations<V>>(
    comp: &C,
    inputs: Map<Key, V>,
    key: Key,
    reads: Seq<(Key, V)>,
) -> Eval<V>
    decreases comp.rank(key), comp.max_reads(key) - reads.len(),
{
    match comp.spec_step(key, reads) {
        Step::Done(v) => Eval::Value(v),
        Step::Need(dep) => {
            if may_read(comp, key, reads, dep) {
                match eval(comp, inputs, dep) {
                    Eval::Value(x) => run(comp, inputs, key, reads.push((dep, x))),
                    Eval::Missing(k) => Eval::Missing(k),
                }
            } else {
                Eval::Missing(key)
            }
        },
    }
}

/// `reads` is the record of a finished run of `key` with result `value`:
/// at each point the computation asked for the key that was read next,
/// and after the last read it finished with `value`.
pub open spec fn is_trace<V, C: Computations<V>>(
    comp: &C,
    key: Key,
    reads: Seq<(Key, V)>,
    value: V,
) -> bool {
    &&& forall|i: int|
        0 <= i < reads.len() ==> {
            &&& #[trigger] comp.spec_step(key, reads.subrange(0, i)) == Step::<V>::Need(reads[i].0)
            &&& may_read(comp, key, reads.subrange(0, i), reads[i].0)
        }
    &&& comp.spec_step(key, reads) == Step::Done(value)
}

/// Two records of reads are alike: they read the same keys in the same
/// order, and found values that the keys' equality tests take for the
/// same.
pub open spec fn alike<V, C: Computations<V>>(comp: &C, a: Seq<(Key, V)>, b: Seq<(Key, V)>) -> bool {
    &&& a.len() == b.len()
    &&& forall|i: int|
        0 <= i < a.len() ==> (#[trigger] a[i]).0 == b[i].0 && comp.spec_same(a[i].0, a[i].1, b[i].1)
}

/// Two steps of the computation of `key` are alike: both ask for the
/// same key, or both finish, with values that the equality test of
/// `key` takes for the same.
pub open spec fn steps_alike<V, C: Computations<V>>(comp: &C, key: Key, s: Step<V>, t: Step<V>) -> bool {
    match (s, t) {
        (Step::Need(d), Step::Need(e)) => d == e,
        (Step::Done(v), Step::Done(w)) => comp.spec_same(key, v, w),
        _ => false,
    }
}

/// What the engine takes for granted of the computations and the
/// equality tests, and does not test: each key's equality test is an
/// equivalence, and a computation does alike on records that are
/// alike. So it is all one which of several values that count as the
/// same a computation is handed.
pub open spec fn lawful<V, C: Computations<V>>(comp: &C) -> bool {
    &&& forall|key: Key, a: V| #[trigger] comp.spec_same(key, a, a)
    &&& forall|key: Key, a: V, b: V| #[trigger] comp.spec_same(key, a, b) ==> comp.spec_same(key, b, a)
    &&& forall|key: Key, a: V, b: V, c: V|
        #[trigger] comp.spec_same(key, a, b) && #[trigger] comp.spec_same(key, b, c)
            ==> comp.spec_same(key, a, c)
    &&& forall|key: Key, a: Seq<(Key, V)>, b: Seq<(Key, V)>|
        alike(comp, a, b) ==> steps_alike(
            comp,
            key,
            #[trigger] comp.spec_step(key, a),
            #[trigger] comp.spec_step(key, b),
        )
}

/// The value `v` is the value of `key` under `inputs`, as far as the
/// equality test of `key` can tell.
pub open spec fn is_value_of<V, C: Computations<V>>(
    comp: &C,
    inputs: Map<Key, V>,
    key: Key,
    v: V,
) -> bool {
    match eval(comp, inputs, key) {
        Eval::Value(w) => comp.spec_same(key, w, v),
        Eval::Missing(_) => false,
    }
}

/// Every recorded read is of a key whose value under `inputs` passes the
/// equality test against the recorded one: nothing that the run
/// depended on has changed.
pub open spec fn reads_unchanged<V, C: Computations<V>>(
    comp: &C,
    inputs: Map<Key, V>,
    reads: Seq<(Key, V)>,
) -> bool {
    forall|i: int|
        0 <= i < reads.len() ==> #[trigger] is_value_of(comp, inputs, reads[i].0, reads[i].1)
}

/// Every recorded read still holds under `inputs`: it shows the value
/// of its key, as far as the key's equality test can tell.
pub open spec fn reads_hold<V, C: Computations<V>>(
    comp: &C,
    inputs: Map<Key, V>,
    reads: Seq<(Key, V)>,
) -> bool {
    reads_unchanged(comp, inputs, reads)
}

/// The record of what the keys that `reads` read are worth under
/// `inputs`.
pub open spec fn truth<V, C: Computations<V>>(
    comp: &C,
    inputs: Map<Key, V>,
    reads: Seq<(Key, V)>,
) -> Seq<(Key, V)> {
    Seq::new(reads.len(), |i: int| (reads[i].0, eval(comp, inputs, reads[i].0)->Value_0))
}

/// The equality test of a key takes a value for the same as itself.
pub proof fn lemma_same_refl<V, C: Computations<V>>(comp: &C, key: Key, a: V)
    requires
        lawful(comp),
    ensures
        comp.spec_same(key, a, a),
{
}

/// The equality test of a key does not mind the order of its values.
pub proof fn lemma_same_sym<V, C: Computations<V>>(comp: &C, key: Key, a: V, b: V)
    requires
        lawful(comp),
        comp.spec_same(key, a, b),
    ensures
        comp.spec_same(key, b, a),
{
}

/// Two values that the equality test of a key takes for the same as a
/// third, it takes for the same.
pub proof fn lemma_same_trans<V, C: Computations<V>>(comp: &C, key: Key, a: V, b: V, c: V)
    requires
        lawful(comp),
        comp.spec_same(key, a, b),
        comp.spec_same(key, b, c),
    ensures
        comp.spec_same(key, a, c),
{
}

/// A computation does alike on records that are alike.
pub proof fn lemma_steps_alike<V, C: Computations<V>>(
    comp: &C,
    key: Key,
    a: Seq<(Key, V)>,
    b: Seq<(Key, V)>,
)
    requires
        lawful(comp),
        alike(comp, a, b),
    ensures
        steps_alike(comp, key, comp.spec_step(key, a), comp.spec_step(key, b)),
{
}

/// A recorded run whose reads still hold reaches, from any point of the
/// run on the true values, a value that the equality test takes for
/// the same as the recorded one.
proof fn lemma_run_follows_trace<V, C: Computations<V>>(
    comp: &C,
    inputs: Map<Key, V>,
    key: Key,
    reads: Seq<(Key, V)>,
    value: V,
    from: int,
)
    requires
        lawful(comp),
        is_trace(comp, key, reads, value),
        reads_hold(comp, inputs, reads),
        0 <= from <= reads.len(),
    ensures
        run(comp, inputs, key, truth(comp, inputs, reads).subrange(0, from)) matches Eval::Value(w)
            && comp.spec_same(key, w, value),
    decreases reads.len() - from,
{
    let all = truth(comp, inputs, reads);
    let true_prefix = all.subrange(0, from);
    let prefix = reads.subrange(0, from);
    assert(alike(comp, true_prefix, prefix)) by {
        assert forall|i: int| 0 <= i < true_prefix.len() implies (#[trigger] true_prefix[i]).0
            == prefix[i].0 && comp.spec_same(true_prefix[i].0, true_prefix[i].1, prefix[i].1) by {
            assert(is_value_of(comp, inputs, reads[i].0, reads[i].1));
        }
    }
    lemma_steps_alike(comp, key, true_prefix, prefix);
    if from == reads.len() {
        assert(prefix =~= reads);
    } else {
        assert(comp.spec_step(key, prefix) == Step::<V>::Need(reads[from].0));
        assert(is_value_of(comp, inputs, reads[from].0, reads[from].1));
        assert(true_prefix.push(all[from]) =~= all.subrange(0, from + 1));
        lemma_run_follows_trace(comp, inputs, key, reads, value, from + 1);
    }
}

/// Early cutoff is sound: where every read of a recorded run still
/// holds, the recorded value is the key's value, as far as the key's
/// equality test can tell.
pub proof fn lemma_trace_gives_value<V, C: Computations<V>>(
    comp: &C,
    inputs: Map<Key, V>,
    key: Key,
    reads: Seq<(Key, V)>,
    value: V,
)
    requires
        lawful(comp),
        key.kind == KeyKind::Computed,
        is_trace(comp, key, reads, value),
        reads_hold(comp, inputs, reads),
    ensures
        is_value_of(comp, inputs, key, value),
{
    lemma_run_follows_trace(comp, inputs, key, reads, value, 0);
    assert(truth(comp, inputs, reads).subrange(0, 0) =~= Seq::<(Key, V)>::empty());
}

} // verus!
