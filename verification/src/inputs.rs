//! Versions and the transactional store of injected values.
//!
//! Injected values are only ever written in batches. Committing a batch
//! advances the version by exactly one, and every earlier version keeps
//! the values it had: the store is an append-only log, and a read at a
//! version sees the latest entry for the key that is not newer than it.

use vstd::prelude::*;
use crate::key::Key;
use crate::key::KeyKind;
use crate::share::Share;

verus! {

/// A logical snapshot of the injected values. Versions only grow.
#[derive(Clone, Copy, Debug, PartialEq, Eq, Structural, Hash)]
pub struct Version(pub u64);

/// One injected value, as recorded by the commit that introduced it.
pub struct Injection<V> {
    pub key: Key,
    pub version: Version,
    pub value: V,
}

/// The value that `log` holds for `key` at version `at`: that of the
/// latest entry for the key whose version is not above `at`.
pub open spec fn lookup<V>(log: Seq<Injection<V>>, key: Key, at: Version) -> Option<V>
    decreases log.len(),
{
    if log.len() == 0 {
        None
    } else if log.last().key == key && log.last().version.0 <= at.0 {
        Some(log.last().value)
    } else {
        lookup(log.drop_last(), key, at)
    }
}

/// All injected values that are visible at version `at`.
pub open spec fn snapshot_of<V>(log: Seq<Injection<V>>, at: Version) -> Map<Key, V> {
    Map::new(|k: Key| lookup(log, k, at).is_some(), |k: Key| lookup(log, k, at).unwrap())
}

/// `log` followed by the entries of `batch`, each stamped with `version`.
pub open spec fn stamped<V>(log: Seq<Injection<V>>, batch: Seq<(Key, V)>, version: Version) -> Seq<
    Injection<V>,
>
    decreases batch.len(),
{
    if batch.len() == 0 {
        log
    } else {
        stamped(log, batch.drop_last(), version).push(
            Injection { key: batch.last().0, version, value: batch.last().1 },
        )
    }
}

/// The last value that `batch` assigns to `key`, if it assigns one.
pub open spec fn assigned<V>(batch: Seq<(Key, V)>, key: Key) -> Option<V>
    decreases batch.len(),
{
    if batch.len() == 0 {
        None
    } else if batch.last().0 == key {
        Some(batch.last().1)
    } else {
        assigned(batch.drop_last(), key)
    }
}

/// Entries stamped with a version above `at` are invisible at `at`.
pub proof fn lemma_stamped_keeps_past<V>(
    log: Seq<Injection<V>>,
    batch: Seq<(Key, V)>,
    version: Version,
    key: Key,
    at: Version,
)
    requires
        at.0 < version.0,
    ensures
        lookup(stamped(log, batch, version), key, at) == lookup(log, key, at),
    decreases batch.len(),
{
    if batch.len() > 0 {
        lemma_stamped_keeps_past(log, batch.drop_last(), version, key, at);
        let s = stamped(log, batch, version);
        assert(s.drop_last() =~= stamped(log, batch.drop_last(), version));
    }
}

/// At the stamped version a key shows what the batch assigned to it last,
/// and otherwise what the log showed before.
pub proof fn lemma_stamped_shows_batch<V>(
    log: Seq<Injection<V>>,
    batch: Seq<(Key, V)>,
    version: Version,
    key: Key,
)
    ensures
        lookup(stamped(log, batch, version), key, version) == match assigned(batch, key) {
            Some(v) => Some(v),
            None => lookup(log, key, version),
        },
    decreases batch.len(),
{
    if batch.len() > 0 {
        lemma_stamped_shows_batch(log, batch.drop_last(), version, key);
        let s = stamped(log, batch, version);
        assert(s.drop_last() =~= stamped(log, batch.drop_last(), version));
    }
}

/// Below every version in the log, a later version sees what an earlier
/// one saw as long as no entry lies between them.
pub proof fn lemma_lookup_beyond_newest<V>(log: Seq<Injection<V>>, key: Key, a: Version, b: Version)
    requires
        forall|i: int| 0 <= i < log.len() ==> (#[trigger] log[i]).version.0 <= a.0,
        a.0 <= b.0,
    ensures
        lookup(log, key, a) == lookup(log, key, b),
    decreases log.len(),
{
    if log.len() > 0 {
        assert(log.last() == log[log.len() - 1]);
        let rest = log.drop_last();
        assert forall|i: int| 0 <= i < rest.len() implies (#[trigger] rest[i]).version.0
            <= a.0 by {
            assert(rest[i] == log[i]);
        }
        lemma_lookup_beyond_newest(rest, key, a, b);
    }
}

/// The entry gives the value of `key` as seen at version `at`, unless a
/// later entry does.
pub open spec fn shows<V>(e: Injection<V>, key: Key, at: Version) -> bool {
    e.key == key && e.version.0 <= at.0
}

/// The entry at `i` is no longer seen from version `keep` on: it is
/// older than `keep`, and a later entry for its key is not newer than
/// `keep`.
pub open spec fn superseded<V>(log: Seq<Injection<V>>, i: int, keep: Version) -> bool {
    &&& log[i].version.0 < keep.0
    &&& exists|j: int| i < j < log.len() && shows(#[trigger] log[j], log[i].key, keep)
}

/// Where the last entry that shows a key is at `i`, the key has the
/// value of that entry.
pub proof fn lemma_last_is_lookup<V>(log: Seq<Injection<V>>, key: Key, at: Version, i: int)
    requires
        0 <= i < log.len(),
        shows(log[i], key, at),
        forall|j: int| i < j < log.len() ==> !shows(#[trigger] log[j], key, at),
    ensures
        lookup(log, key, at) == Some(log[i].value),
    decreases log.len(),
{
    assert(log.last() == log[log.len() - 1]);
    if i < log.len() - 1 {
        assert(!shows(log[log.len() - 1], key, at));
        let rest = log.drop_last();
        assert(rest[i] == log[i]);
        assert forall|j: int| i < j < rest.len() implies !shows(#[trigger] rest[j], key, at) by {
            assert(rest[j] == log[j]);
        }
        lemma_last_is_lookup(rest, key, at, i);
    }
}

/// A key that has a value has it from the last entry that shows it,
/// and a key that has none is shown by no entry.
pub proof fn lemma_lookup_is_last<V>(log: Seq<Injection<V>>, key: Key, at: Version)
    ensures
        match lookup(log, key, at) {
            Some(v) => exists|i: int|
                0 <= i < log.len() && shows(#[trigger] log[i], key, at) && log[i].value == v
                    && forall|j: int| i < j < log.len() ==> !shows(#[trigger] log[j], key, at),
            None => forall|i: int| 0 <= i < log.len() ==> !shows(#[trigger] log[i], key, at),
        },
    decreases log.len(),
{
    if log.len() > 0 {
        let last = log.len() - 1;
        assert(log.last() == log[last]);
        if shows(log[last], key, at) {
            assert(shows(log[last], key, at) && log[last].value == log.last().value);
        } else {
            let rest = log.drop_last();
            lemma_lookup_is_last(rest, key, at);
            match lookup(rest, key, at) {
                Some(v) => {
                    let i = choose|i: int|
                        0 <= i < rest.len() && shows(#[trigger] rest[i], key, at) && rest[i].value
                            == v && forall|j: int|
                            i < j < rest.len() ==> !shows(#[trigger] rest[j], key, at);
                    assert(rest[i] == log[i]);
                    assert forall|j: int| i < j < log.len() implies !shows(
                        #[trigger] log[j],
                        key,
                        at,
                    ) by {
                        if j < rest.len() {
                            assert(rest[j] == log[j]);
                        }
                    }
                    assert(shows(log[i], key, at) && log[i].value == v);
                },
                None => {
                    assert forall|i: int| 0 <= i < log.len() implies !shows(
                        #[trigger] log[i],
                        key,
                        at,
                    ) by {
                        if i < rest.len() {
                            assert(rest[i] == log[i]);
                        }
                    }
                },
            }
        }
    }
}

/// `kept` is `log` without some entries that are superseded at `keep`:
/// `origin` tells for each entry of `kept` where it stood in `log`.
pub open spec fn thinned<V>(
    log: Seq<Injection<V>>,
    kept: Seq<Injection<V>>,
    origin: Seq<int>,
    keep: Version,
) -> bool {
    &&& origin.len() == kept.len()
    &&& forall|m: int| 0 <= m < kept.len() ==> 0 <= #[trigger] origin[m] < log.len() && kept[m] == log[origin[m]]
    &&& forall|m: int, n: int| 0 <= m < n < kept.len() ==> #[trigger] origin[m] < #[trigger] origin[n]
    &&& forall|i: int|
        0 <= i < log.len() ==> superseded(log, i, keep) || exists|m: int|
            0 <= m < kept.len() && #[trigger] origin[m] == i
}

/// Thinning a log does not change what is seen from `keep` on.
pub proof fn lemma_thinned_shows_the_same<V>(
    log: Seq<Injection<V>>,
    kept: Seq<Injection<V>>,
    origin: Seq<int>,
    keep: Version,
    key: Key,
    at: Version,
)
    requires
        thinned(log, kept, origin, keep),
        keep.0 <= at.0,
    ensures
        lookup(kept, key, at) == lookup(log, key, at),
{
    lemma_lookup_is_last(log, key, at);
    match lookup(log, key, at) {
        Some(v) => {
            let i = choose|i: int|
                0 <= i < log.len() && shows(#[trigger] log[i], key, at) && log[i].value == v
                    && forall|j: int| i < j < log.len() ==> !shows(#[trigger] log[j], key, at);
            if superseded(log, i, keep) {
                let j = choose|j: int| i < j < log.len() && shows(#[trigger] log[j], log[i].key, keep);
                assert(shows(log[j], key, at));
            }
            let m = choose|m: int| 0 <= m < kept.len() && #[trigger] origin[m] == i;
            assert(kept[m] == log[i]);
            assert forall|n: int| m < n < kept.len() implies !shows(#[trigger] kept[n], key, at) by {
                assert(origin[m] < origin[n]);
                assert(kept[n] == log[origin[n]]);
            }
            lemma_last_is_lookup(kept, key, at, m);
        },
        None => {
            lemma_lookup_is_last(kept, key, at);
            if lookup(kept, key, at).is_some() {
                let m = choose|m: int| 0 <= m < kept.len() && shows(#[trigger] kept[m], key, at);
                assert(kept[m] == log[origin[m]]);
                assert(shows(log[origin[m]], key, at));
            }
        },
    }
}

/// Why an update was refused.
#[derive(Clone, Copy, Debug, PartialEq, Eq, Structural)]
pub enum UpdateError {
    /// Only injected keys can be given a value from outside.
    NotInjected(Key),
}

/// The store of injected values together with the current version.
pub struct Inputs<V> {
    current: Version,
    log: Vec<Injection<V>>,
}

/// A batch of injected values that has not been committed yet.
pub struct Updater<V> {
    base: Version,
    pending: Vec<(Key, V)>,
}

impl<V: Share> Inputs<V> {
    /// Every committed entry, oldest first.
    pub closed spec fn entries(&self) -> Seq<Injection<V>> {
        self.log@
    }

    /// The newest committed version.
    pub closed spec fn current(&self) -> Version {
        self.current
    }

    /// No entry is newer than the current version.
    pub open spec fn wf(&self) -> bool {
        forall|i: int|
            0 <= i < self.entries().len() ==> (#[trigger] self.entries()[i]).version.0
                <= self.current().0
    }

    /// The injected values visible at version `at`.
    pub open spec fn snapshot(&self, at: Version) -> Map<Key, V> {
        snapshot_of(self.entries(), at)
    }

    /// An empty store at version zero.
    pub fn new() -> (s: Self)
        ensures
            s.wf(),
            s.current() == Version(0),
            s.entries() == Seq::<Injection<V>>::empty(),
    {
        Inputs { current: Version(0), log: Vec::new() }
    }

    /// The newest committed version.
    pub fn current_version(&self) -> (v: Version)
        ensures
            v == self.current(),
    {
        self.current
    }

    /// The value of `key` as seen at version `at`, if it has one there.
    pub fn value_at(&self, key: &Key, at: Version) -> (r: Option<V>)
        ensures
            r == lookup(self.entries(), *key, at),
            r.is_some() <==> self.snapshot(at).contains_key(*key),
            r.is_some() ==> self.snapshot(at)[*key] == r.unwrap(),
    {
        let mut i: usize = self.log.len();
        proof {
            assert(self.log@.subrange(0, i as int) =~= self.log@);
        }
        while i > 0
            invariant
                i <= self.log.len(),
                lookup(self.log@, *key, at) == lookup(self.log@.subrange(0, i as int), *key, at),
            decreases i,
        {
            let e = &self.log[i - 1];
            proof {
                let prefix = self.log@.subrange(0, i as int);
                assert(prefix.last() == self.log@[i - 1]);
                assert(prefix.drop_last() =~= self.log@.subrange(0, i - 1));
            }
            if e.key.same_key(key) && e.version.0 <= at.0 {
                return Some(e.value.share());
            }
            i = i - 1;
        }
        proof {
            assert(self.log@.subrange(0, 0).len() == 0);
        }
        None
    }

    /// Whether a later entry than the one at `i` shows the key of that
    /// entry at version `keep`.
    fn shown_later(&self, i: usize, keep: Version) -> (b: bool)
        requires
            i < self.log@.len(),
        ensures
            b == exists|j: int|
                i < j < self.log@.len() && shows(#[trigger] self.log@[j], self.log@[i as int].key, keep),
    {
        let key = self.log[i].key;
        let n = self.log.len();
        let mut j: usize = i + 1;
        while j < n
            invariant
                n == self.log@.len(),
                i < j <= self.log@.len(),
                key == self.log@[i as int].key,
                forall|m: int| i < m < j ==> !shows(#[trigger] self.log@[m], key, keep),
            decreases n - j,
        {
            if self.log[j].key.same_key(&key) && self.log[j].version.0 <= keep.0 {
                proof {
                    assert(shows(self.log@[j as int], key, keep));
                }
                return true;
            }
            j = j + 1;
        }
        false
    }

    /// Forgets what no version from `keep` on can see: exactly the
    /// entries that are older than `keep` and superseded at it. What is
    /// seen at `keep` and at every later version stays as it is; what
    /// earlier versions saw is lost.
    pub fn forget_before(&mut self, keep: Version)
        requires
            old(self).wf(),
        ensures
            final(self).wf(),
            final(self).current() == old(self).current(),
            final(self).entries().len() <= old(self).entries().len(),
            exists|origin: Seq<int>| #[trigger]
                thinned(old(self).entries(), final(self).entries(), origin, keep) && forall|m: int|
                    0 <= m < origin.len() ==> !superseded(
                        old(self).entries(),
                        #[trigger] origin[m],
                        keep,
                    ),
            forall|key: Key, at: Version|
                keep.0 <= at.0 ==> #[trigger] lookup(final(self).entries(), key, at) == lookup(
                    old(self).entries(),
                    key,
                    at,
                ),
            forall|at: Version|
                keep.0 <= at.0 ==> #[trigger] final(self).snapshot(at) == old(self).snapshot(at),
    {
        let n = self.log.len();
        let mut kept: Vec<Injection<V>> = Vec::new();
        let ghost mut origin: Seq<int> = Seq::empty();
        let mut i: usize = 0;
        while i < n
            invariant
                i <= n,
                n == self.log@.len(),
                self.log@ == old(self).log@,
                self.current == old(self).current,
                origin.len() == kept@.len(),
                kept@.len() <= i,
                forall|m: int|
                    0 <= m < kept@.len() ==> 0 <= #[trigger] origin[m] < i && kept@[m]
                        == self.log@[origin[m]],
                forall|m: int, k: int|
                    0 <= m < k < kept@.len() ==> #[trigger] origin[m] < #[trigger] origin[k],
                forall|m: int|
                    0 <= m < origin.len() ==> !superseded(self.log@, #[trigger] origin[m], keep),
                forall|j: int|
                    0 <= j < i ==> superseded(self.log@, j, keep) || exists|m: int|
                        0 <= m < kept@.len() && #[trigger] origin[m] == j,
            decreases n - i,
        {
            let drop = self.log[i].version.0 < keep.0 && self.shown_later(i, keep);
            if !drop {
                let e = &self.log[i];
                let ghost before = kept@;
                let ghost sources = origin;
                kept.push(Injection { key: e.key, version: e.version, value: e.value.share() });
                proof {
                    origin = origin.push(i as int);
                    assert forall|j: int| 0 <= j < i + 1 implies superseded(self.log@, j, keep)
                        || exists|m: int| 0 <= m < kept@.len() && #[trigger] origin[m] == j by {
                        if j < i {
                            if !superseded(self.log@, j, keep) {
                                let m = choose|m: int|
                                    0 <= m < before.len() && #[trigger] sources[m] == j;
                                assert(origin[m] == j);
                            }
                        } else {
                            assert(origin[kept@.len() - 1] == j);
                        }
                    }
                }
            } else {
                proof {
                    assert(superseded(self.log@, i as int, keep));
                }
            }
            i = i + 1;
        }
        proof {
            assert forall|m: int| 0 <= m < kept@.len() implies (#[trigger] kept@[m]).version.0
                <= self.current.0 by {
                assert(kept@[m] == self.log@[origin[m]]);
                assert(old(self).entries()[origin[m]].version.0 <= old(self).current().0);
            }
            assert(thinned(self.log@, kept@, origin, keep));
            assert forall|key: Key, at: Version| keep.0 <= at.0 implies #[trigger] lookup(
                kept@,
                key,
                at,
            ) == lookup(self.log@, key, at) by {
                lemma_thinned_shows_the_same(self.log@, kept@, origin, keep, key, at);
            }
            assert forall|at: Version| keep.0 <= at.0 implies snapshot_of(kept@, at) == snapshot_of(
                self.log@,
                at,
            ) by {
                assert forall|key: Key| lookup(kept@, key, at) == lookup(self.log@, key, at) by {
                    lemma_thinned_shows_the_same(self.log@, kept@, origin, keep, key, at);
                }
                assert(snapshot_of(kept@, at) =~= snapshot_of(self.log@, at));
            }
        }
        self.log = kept;
    }

    /// Starts a batch of updates on top of the current version.
    pub fn begin_update(&self) -> (u: Updater<V>)
        ensures
            u.base() == self.current(),
            u.pending() == Seq::<(Key, V)>::empty(),
    {
        Updater { base: self.current, pending: Vec::new() }
    }
}

impl<V: Share> Updater<V> {
    /// The version that was current when the batch was begun.
    pub closed spec fn base(&self) -> Version {
        self.base
    }

    /// The assignments made so far, in the order they were made.
    pub closed spec fn pending(&self) -> Seq<(Key, V)> {
        self.pending@
    }

    /// Assigns `value` to the injected key `key`. A later assignment to
    /// the same key in one batch replaces an earlier one. A key that is
    /// not injected is refused and the batch stays as it was.
    pub fn set(&mut self, key: Key, value: V) -> (r: Result<(), UpdateError>)
        ensures
            final(self).base() == old(self).base(),
            key.kind == KeyKind::Injected ==> r.is_ok() && final(self).pending() == old(
                self,
            ).pending().push((key, value)),
            key.kind != KeyKind::Injected ==> r == Err::<(), UpdateError>(
                UpdateError::NotInjected(key),
            ) && final(self).pending() == old(self).pending(),
    {
        if key.is_injected() {
            self.pending.push((key, value));
            Ok(())
        } else {
            Err(UpdateError::NotInjected(key))
        }
    }

    /// Commits the batch: the version advances by exactly one, the batch's
    /// values become visible at the new version, and every earlier
    /// version keeps showing what it showed before.
    pub fn commit(self, inputs: &mut Inputs<V>) -> (v: Version)
        requires
            old(inputs).wf(),
            old(inputs).current().0 < u64::MAX,
        ensures
            v.0 == old(inputs).current().0 + 1,
            final(inputs).current() == v,
            final(inputs).wf(),
            final(inputs).entries() == stamped(old(inputs).entries(), self.pending(), v),
            forall|at: Version|
                at.0 <= old(inputs).current().0 ==> #[trigger] final(inputs).snapshot(at) == old(
                    inputs,
                ).snapshot(at),
            forall|k: Key| #[trigger]
                lookup(final(inputs).entries(), k, v) == match assigned(self.pending(), k) {
                    Some(x) => Some(x),
                    None => lookup(old(inputs).entries(), k, old(inputs).current()),
                },
    {
        let next = Version(inputs.current.0 + 1);
        let ghost before = inputs.log@;
        let n = self.pending.len();
        let mut i: usize = 0;
        while i < n
            invariant
                i <= n,
                n == self.pending@.len(),
                inputs.current == old(inputs).current,
                inputs.log@ == stamped(before, self.pending@.subrange(0, i as int), next),
                forall|j: int|
                    0 <= j < inputs.log@.len() ==> (#[trigger] inputs.log@[j]).version.0 <= next.0,
                before == old(inputs).log@,
                next.0 == old(inputs).current.0 + 1,
            decreases n - i,
        {
            let key = self.pending[i].0;
            let value = self.pending[i].1.share();
            proof {
                let upto = self.pending@.subrange(0, i + 1);
                assert(upto.last() == self.pending@[i as int]);
                assert(upto.drop_last() =~= self.pending@.subrange(0, i as int));
            }
            inputs.log.push(Injection { key, version: next, value });
            i = i + 1;
        }
        inputs.current = next;
        proof {
            assert(self.pending@.subrange(0, n as int) =~= self.pending@);
            assert forall|at: Version| at.0 <= old(inputs).current().0 implies #[trigger]
                inputs.snapshot(at) == old(inputs).snapshot(at) by {
                assert forall|k: Key|
                    lookup(inputs.log@, k, at) == lookup(before, k, at) by {
                    lemma_stamped_keeps_past(before, self.pending@, next, k, at);
                }
                assert(inputs.snapshot(at) =~= old(inputs).snapshot(at));
            }
            assert forall|k: Key| #[trigger]
                lookup(inputs.log@, k, next) == match assigned(self.pending@, k) {
                    Some(x) => Some(x),
                    None => lookup(before, k, old(inputs).current),
                } by {
                lemma_stamped_shows_batch(before, self.pending@, next, k);
                lemma_lookup_beyond_newest(before, k, old(inputs).current, next);
            }
        }
        next
    }
}

} // verus!
