//! The global profiling configuration of the script interpreter, held
//! in the engine as one injected key and two keys computed from it.

use vstd::prelude::*;
use crate::computation::alike;
use crate::computation::eval;
use crate::computation::lawful;
use crate::computation::steps_alike;
use crate::computation::run;
use crate::computation::Computations;
use crate::computation::Eval;
use crate::computation::Step;
use crate::computation::StepOutcome;
use crate::engine::ComputationContext;
use crate::engine::Engine;
use crate::graph::Graph;
use crate::graph::Resolved;
use crate::inputs::lookup;
use crate::inputs::Inputs;
use crate::inputs::UpdateError;
use crate::inputs::Updater;
use crate::key::Key;
use crate::key::KeyKind;
use crate::share::Share;

verus! {

/// What the interpreter's profiler measures.
#[derive(Clone, Copy, Debug, PartialEq, Eq, Structural, Hash)]
pub enum ProfileMode {
    HeapSummaryAllocated,
    HeapSummaryRetained,
    HeapFlameAllocated,
    HeapFlameRetained,
    Statement,
    Coverage,
    Bytecode,
    BytecodePairs,
    TimeFlame,
    Typecheck,
}

/// How one evaluation is to be run: plainly, or under the profiler.
#[derive(Clone, Copy, Debug, PartialEq, Eq, Structural, Hash)]
pub enum StarlarkProfileModeOrInstrumentation {
    /// No profiling and no instrumentation.
    Disabled,
    /// Profile in this mode.
    Profile(ProfileMode),
}

/// Why a profile mode could not be given.
#[derive(Clone, Copy, Debug, PartialEq, Eq, Structural, Hash)]
pub enum StarlarkProfilerError {
    /// The configuration does not profile the last element of the kind
    /// that was asked about.
    ProfilerConfigurationNotLast,
}

impl StarlarkProfilerError {
    /// The error's message.
    pub fn message(&self) -> (s: &'static str)
        ensures
            s@ == "profiler is not configured to profile last element (internal error)"@,
    {
        "profiler is not configured to profile last element (internal error)"
    }
}

/// Global profiling configuration.
#[derive(Clone, Copy, Debug, PartialEq, Eq, Structural, Hash)]
pub enum StarlarkProfilerConfiguration {
    /// No profiling.
    Disabled,
    /// Profile loading of one build file, everything else is instrumented.
    ProfileLastLoading(ProfileMode),
    /// Profile analysis of the last target, everything else is instrumented.
    ProfileLastAnalysis(ProfileMode),
    /// Profile analysis targets recursively.
    ProfileAnalysisRecursively(ProfileMode),
    /// Profile an extension script.
    ProfileBxl(ProfileMode),
}

impl Default for StarlarkProfilerConfiguration {
    fn default() -> (c: Self)
        ensures
            c == StarlarkProfilerConfiguration::Disabled,
    {
        StarlarkProfilerConfiguration::Disabled
    }
}

impl StarlarkProfilerConfiguration {
    /// The mode in which intermediate targets are analysed: the
    /// configured mode where analysis is profiled recursively, and no
    /// profiling otherwise.
    pub open spec fn spec_profile_mode_for_intermediate_analysis(
        &self,
    ) -> StarlarkProfileModeOrInstrumentation {
        match *self {
            StarlarkProfilerConfiguration::ProfileAnalysisRecursively(mode) => {
                StarlarkProfileModeOrInstrumentation::Profile(mode)
            },
            _ => StarlarkProfileModeOrInstrumentation::Disabled,
        }
    }

    /// The mode for profiling an extension script, which only a
    /// configuration that profiles extension scripts has.
    pub fn profile_last_bxl(&self) -> (r: Result<&ProfileMode, StarlarkProfilerError>)
        ensures
            match *self {
                StarlarkProfilerConfiguration::ProfileBxl(mode) => r matches Ok(m) && *m == mode,
                _ => r matches Err(e) && e == StarlarkProfilerError::ProfilerConfigurationNotLast,
            },
    {
        match self {
            StarlarkProfilerConfiguration::Disabled
            | StarlarkProfilerConfiguration::ProfileLastAnalysis(_)
            | StarlarkProfilerConfiguration::ProfileAnalysisRecursively(_)
            | StarlarkProfilerConfiguration::ProfileLastLoading(_) => {
                Err(StarlarkProfilerError::ProfilerConfigurationNotLast)
            },
            StarlarkProfilerConfiguration::ProfileBxl(profile_mode) => Ok(profile_mode),
        }
    }

    /// The mode for profiling the loading of the last build file, which
    /// only a configuration that profiles the last loading has.
    pub fn profile_last_loading(&self) -> (r: Result<&ProfileMode, StarlarkProfilerError>)
        ensures
            match *self {
                StarlarkProfilerConfiguration::ProfileLastLoading(mode) => r matches Ok(m) && *m
                    == mode,
                _ => r matches Err(e) && e == StarlarkProfilerError::ProfilerConfigurationNotLast,
            },
    {
        match self {
            StarlarkProfilerConfiguration::Disabled
            | StarlarkProfilerConfiguration::ProfileLastAnalysis(_)
            | StarlarkProfilerConfiguration::ProfileAnalysisRecursively(_)
            | StarlarkProfilerConfiguration::ProfileBxl(_) => {
                Err(StarlarkProfilerError::ProfilerConfigurationNotLast)
            },
            StarlarkProfilerConfiguration::ProfileLastLoading(profile_mode) => Ok(profile_mode),
        }
    }

    /// The mode for profiling the analysis of the last target, which a
    /// configuration has that profiles the last analysis or analysis
    /// recursively.
    pub fn profile_last_analysis(&self) -> (r: Result<&ProfileMode, StarlarkProfilerError>)
        ensures
            match *self {
                StarlarkProfilerConfiguration::ProfileLastAnalysis(mode) => r matches Ok(m) && *m
                    == mode,
                StarlarkProfilerConfiguration::ProfileAnalysisRecursively(mode) => r matches Ok(m)
                    && *m == mode,
                _ => r matches Err(e) && e == StarlarkProfilerError::ProfilerConfigurationNotLast,
            },
    {
        match self {
            StarlarkProfilerConfiguration::Disabled
            | StarlarkProfilerConfiguration::ProfileLastLoading(_)
            | StarlarkProfilerConfiguration::ProfileBxl(_) => {
                Err(StarlarkProfilerError::ProfilerConfigurationNotLast)
            },
            StarlarkProfilerConfiguration::ProfileLastAnalysis(profile_mode)
            | StarlarkProfilerConfiguration::ProfileAnalysisRecursively(profile_mode) => {
                Ok(profile_mode)
            },
        }
    }

    /// Profile mode for intermediate target analysis.
    pub fn profile_mode_for_intermediate_analysis(&self) -> (r:
        StarlarkProfileModeOrInstrumentation)
        ensures
            r == self.spec_profile_mode_for_intermediate_analysis(),
    {
        match self {
            StarlarkProfilerConfiguration::Disabled
            | StarlarkProfilerConfiguration::ProfileLastLoading(_)
            | StarlarkProfilerConfiguration::ProfileLastAnalysis(_)
            | StarlarkProfilerConfiguration::ProfileBxl(_) => {
                StarlarkProfileModeOrInstrumentation::Disabled
            },
            StarlarkProfilerConfiguration::ProfileAnalysisRecursively(profile_mode) => {
                StarlarkProfileModeOrInstrumentation::Profile(*profile_mode)
            },
        }
    }
}

/// The type tag of the key that holds the injected configuration.
pub const INSTRUMENTATION_OVERRIDE_TAG: u64 = 1;

/// The type tag of the key that holds the configuration in force.
pub const CONFIGURATION_TAG: u64 = 2;

/// The type tag of the key that holds the mode for intermediate analysis.
pub const INTERMEDIATE_ANALYSIS_MODE_TAG: u64 = 3;

/// Global interpreter instrumentation level, set from outside.
///
/// Only leaf computations are profiled, and this one key defines the
/// instrumentation of every script, whether or not the profiled entity
/// depends on it. A single global key is simple; the price is that
/// parse results are invalidated when profiling is switched on or off.
#[derive(Clone, Copy, Debug, PartialEq, Eq, Structural, Hash)]
pub struct StarlarkProfilerInstrumentationOverrideKey;

/// The key of the configuration in force, computed from the injected one.
#[derive(Clone, Copy, Debug, PartialEq, Eq, Structural, Hash)]
pub struct StarlarkProfilerConfigurationKey;

/// The key of the mode in which intermediate targets are analysed.
#[derive(Clone, Copy, Debug, PartialEq, Eq, Structural, Hash)]
pub struct StarlarkProfileModeForIntermediateAnalysisKey;

/// Why a profiler key has no proper value.
#[derive(Clone, Copy, Debug, PartialEq, Eq, Structural, Hash)]
pub enum ProfilerFailure {
    /// No configuration has been injected.
    NotSet,
    /// A key held a value that is not of its kind.
    WrongKind,
    /// The key is none of the profiler's keys.
    UnknownKey,
    /// The request was cancelled.
    Cancelled,
}

/// The values of the profiler's keys.
#[derive(Clone, Copy, Debug)]
pub enum ProfilerValue {
    /// The injected configuration.
    Override(StarlarkProfilerConfiguration),
    /// The configuration in force.
    Configuration(StarlarkProfilerConfiguration),
    /// The mode for the analysis of intermediate targets.
    IntermediateMode(StarlarkProfileModeOrInstrumentation),
    /// The computation of the key failed.
    Failed(ProfilerFailure),
}

impl StarlarkProfilerInstrumentationOverrideKey {
    /// The key's identity in the engine.
    pub open spec fn spec_key() -> Key {
        Key { kind: KeyKind::Injected, type_tag: INSTRUMENTATION_OVERRIDE_TAG, id: 0 }
    }

    /// The key's identity in the engine.
    pub fn key(&self) -> (k: Key)
        ensures
            k == Self::spec_key(),
    {
        Key::injected(INSTRUMENTATION_OVERRIDE_TAG, 0)
    }

    /// Two injected configurations are the same if they are equal.
    pub fn equality(x: &StarlarkProfilerConfiguration, y: &StarlarkProfilerConfiguration) -> (b:
        bool)
        ensures
            b == (*x == *y),
    {
        *x == *y
    }
}

impl StarlarkProfilerConfigurationKey {
    /// The key's identity in the engine.
    pub open spec fn spec_key() -> Key {
        Key { kind: KeyKind::Computed, type_tag: CONFIGURATION_TAG, id: 0 }
    }

    /// The key's identity in the engine.
    pub fn key(&self) -> (k: Key)
        ensures
            k == Self::spec_key(),
    {
        Key::computed(CONFIGURATION_TAG, 0)
    }

    /// The configuration that the key's computation derives from what
    /// it read of the injected key.
    pub open spec fn spec_compute(read: ProfilerValue) -> ProfilerValue {
        match read {
            ProfilerValue::Override(c) => ProfilerValue::Configuration(c),
            _ => ProfilerValue::Failed(ProfilerFailure::WrongKind),
        }
    }

    /// The key's computation, given what it read of the injected key.
    pub fn compute(&self, read: &ProfilerValue) -> (v: ProfilerValue)
        ensures
            v == Self::spec_compute(*read),
    {
        match read {
            ProfilerValue::Override(c) => ProfilerValue::Configuration(*c),
            _ => ProfilerValue::Failed(ProfilerFailure::WrongKind),
        }
    }

    /// Two results are the same if they are equal: two configurations
    /// that are equal, or two failures that are. A failure is compared
    /// like any other value.
    pub fn equality(
        x: &Result<StarlarkProfilerConfiguration, ProfilerFailure>,
        y: &Result<StarlarkProfilerConfiguration, ProfilerFailure>,
    ) -> (b: bool)
        ensures
            b == (*x == *y),
    {
        match (x, y) {
            (Ok(x), Ok(y)) => *x == *y,
            (Err(x), Err(y)) => *x == *y,
            _ => false,
        }
    }
}

impl StarlarkProfileModeForIntermediateAnalysisKey {
    /// The key's identity in the engine.
    pub open spec fn spec_key() -> Key {
        Key { kind: KeyKind::Computed, type_tag: INTERMEDIATE_ANALYSIS_MODE_TAG, id: 0 }
    }

    /// The key's identity in the engine.
    pub fn key(&self) -> (k: Key)
        ensures
            k == Self::spec_key(),
    {
        Key::computed(INTERMEDIATE_ANALYSIS_MODE_TAG, 0)
    }

    /// The mode that the key's computation derives from what it read
    /// of the configuration in force.
    pub open spec fn spec_compute(read: ProfilerValue) -> ProfilerValue {
        match read {
            ProfilerValue::Configuration(c) => ProfilerValue::IntermediateMode(
                c.spec_profile_mode_for_intermediate_analysis(),
            ),
            ProfilerValue::Failed(f) => ProfilerValue::Failed(f),
            _ => ProfilerValue::Failed(ProfilerFailure::WrongKind),
        }
    }

    /// The key's computation, given what it read of the configuration
    /// in force. A failure of the configuration is passed on.
    pub fn compute(&self, read: &ProfilerValue) -> (v: ProfilerValue)
        ensures
            v == Self::spec_compute(*read),
    {
        match read {
            ProfilerValue::Configuration(c) => ProfilerValue::IntermediateMode(
                c.profile_mode_for_intermediate_analysis(),
            ),
            ProfilerValue::Failed(f) => ProfilerValue::Failed(*f),
            _ => ProfilerValue::Failed(ProfilerFailure::WrongKind),
        }
    }

    /// Two results are the same if they are equal: two modes that are
    /// equal, or two failures that are. A failure is compared like any
    /// other value.
    pub fn equality(
        x: &Result<StarlarkProfileModeOrInstrumentation, ProfilerFailure>,
        y: &Result<StarlarkProfileModeOrInstrumentation, ProfilerFailure>,
    ) -> (b: bool)
        ensures
            b == (*x == *y),
    {
        match (x, y) {
            (Ok(x), Ok(y)) => *x == *y,
            (Err(x), Err(y)) => *x == *y,
            _ => false,
        }
    }
}

impl Share for ProfilerValue {
    fn share(&self) -> (copy: Self) {
        *self
    }
}

/// The computations of the profiler's keys.
#[derive(Clone, Copy, Debug)]
pub struct ProfilerKeys;

impl Computations<ProfilerValue> for ProfilerKeys {
    open spec fn rank(&self, key: Key) -> nat {
        if key == StarlarkProfilerConfigurationKey::spec_key() {
            1
        } else if key == StarlarkProfileModeForIntermediateAnalysisKey::spec_key() {
            2
        } else {
            0
        }
    }

    open spec fn max_reads(&self, key: Key) -> nat {
        1
    }

    open spec fn interruptible(&self) -> bool {
        false
    }

    open spec fn spec_step(&self, key: Key, reads: Seq<(Key, ProfilerValue)>) -> Step<
        ProfilerValue,
    > {
        if key == StarlarkProfilerConfigurationKey::spec_key() {
            if reads.len() == 0 {
                Step::Need(StarlarkProfilerInstrumentationOverrideKey::spec_key())
            } else {
                Step::Done(StarlarkProfilerConfigurationKey::spec_compute(reads[0].1))
            }
        } else if key == StarlarkProfileModeForIntermediateAnalysisKey::spec_key() {
            if reads.len() == 0 {
                Step::Need(StarlarkProfilerConfigurationKey::spec_key())
            } else {
                Step::Done(StarlarkProfileModeForIntermediateAnalysisKey::spec_compute(reads[0].1))
            }
        } else {
            Step::Done(ProfilerValue::Failed(ProfilerFailure::UnknownKey))
        }
    }

    open spec fn spec_same(&self, key: Key, a: ProfilerValue, b: ProfilerValue) -> bool {
        match (a, b) {
            (ProfilerValue::Override(x), ProfilerValue::Override(y)) => x == y,
            (ProfilerValue::Configuration(x), ProfilerValue::Configuration(y)) => x == y,
            (ProfilerValue::IntermediateMode(x), ProfilerValue::IntermediateMode(y)) => x == y,
            (ProfilerValue::Failed(x), ProfilerValue::Failed(y)) => x == y,
            _ => false,
        }
    }

    fn step(&self, key: &Key, reads: &Vec<(Key, ProfilerValue)>) -> (s: StepOutcome<ProfilerValue>) {
        if key.same_key(&StarlarkProfilerConfigurationKey.key()) {
            if reads.len() == 0 {
                StepOutcome::Step(Step::Need(StarlarkProfilerInstrumentationOverrideKey.key()))
            } else {
                StepOutcome::Step(Step::Done(StarlarkProfilerConfigurationKey.compute(&reads[0].1)))
            }
        } else if key.same_key(&StarlarkProfileModeForIntermediateAnalysisKey.key()) {
            if reads.len() == 0 {
                StepOutcome::Step(Step::Need(StarlarkProfilerConfigurationKey.key()))
            } else {
                StepOutcome::Step(
                    Step::Done(StarlarkProfileModeForIntermediateAnalysisKey.compute(&reads[0].1)),
                )
            }
        } else {
            StepOutcome::Step(Step::Done(ProfilerValue::Failed(ProfilerFailure::UnknownKey)))
        }
    }

    fn same(&self, key: &Key, a: &ProfilerValue, b: &ProfilerValue) -> (r: bool) {
        match (a, b) {
            (ProfilerValue::Override(x), ProfilerValue::Override(y)) => {
                StarlarkProfilerInstrumentationOverrideKey::equality(x, y)
            },
            (ProfilerValue::Configuration(x), ProfilerValue::Configuration(y)) => *x == *y,
            (ProfilerValue::IntermediateMode(x), ProfilerValue::IntermediateMode(y)) => *x == *y,
            (ProfilerValue::Failed(x), ProfilerValue::Failed(y)) => *x == *y,
            _ => false,
        }
    }

}

/// The equality test of the profiler's keys is equality, so its
/// computations do alike on what it takes for the same.
pub proof fn lemma_profiler_keys_are_lawful()
    ensures
        lawful(&ProfilerKeys),
        forall|key: Key, a: ProfilerValue, b: ProfilerValue| #[trigger]
            ProfilerKeys.spec_same(key, a, b) <==> a == b,
{
    let comp = &ProfilerKeys;
    assert forall|key: Key, a: Seq<(Key, ProfilerValue)>, b: Seq<(Key, ProfilerValue)>|
        alike(comp, a, b) implies steps_alike(
        comp,
        key,
        #[trigger] comp.spec_step(key, a),
        #[trigger] comp.spec_step(key, b),
    ) by {
        assert forall|i: int| 0 <= i < a.len() implies a[i] == b[i] by {
            assert(a[i].0 == b[i].0 && comp.spec_same(a[i].0, a[i].1, b[i].1));
        }
        assert(a =~= b);
    }
}

/// The mode for intermediate analysis that follows from what the
/// injected key holds: the mode of the injected configuration, or the
/// reason why there is none.
pub open spec fn intermediate_mode_of(injected: Option<ProfilerValue>) -> Result<
    StarlarkProfileModeOrInstrumentation,
    ProfilerFailure,
> {
    match injected {
        None => Err(ProfilerFailure::NotSet),
        Some(ProfilerValue::Override(c)) => Ok(c.spec_profile_mode_for_intermediate_analysis()),
        Some(_) => Err(ProfilerFailure::WrongKind),
    }
}

/// The value of the intermediate analysis key is what follows from the
/// injected configuration.
pub proof fn lemma_intermediate_mode_value(inputs: Map<Key, ProfilerValue>)
    ensures
        eval(&ProfilerKeys, inputs, StarlarkProfileModeForIntermediateAnalysisKey::spec_key())
            == match (if inputs.contains_key(
            StarlarkProfilerInstrumentationOverrideKey::spec_key(),
        ) {
            Some(inputs[StarlarkProfilerInstrumentationOverrideKey::spec_key()])
        } else {
            None
        }) {
            None => Eval::<ProfilerValue>::Missing(
                StarlarkProfilerInstrumentationOverrideKey::spec_key(),
            ),
            Some(v) => Eval::Value(
                StarlarkProfileModeForIntermediateAnalysisKey::spec_compute(
                    StarlarkProfilerConfigurationKey::spec_compute(v),
                ),
            ),
        },
{
    let comp = &ProfilerKeys;
    let source = StarlarkProfilerInstrumentationOverrideKey::spec_key();
    let config = StarlarkProfilerConfigurationKey::spec_key();
    let mode = StarlarkProfileModeForIntermediateAnalysisKey::spec_key();
    let none = Seq::<(Key, ProfilerValue)>::empty();
    reveal_with_fuel(eval, 2);
    reveal_with_fuel(run, 3);
    assert(comp.spec_step(config, none) == Step::<ProfilerValue>::Need(source));
    assert(comp.spec_step(mode, none) == Step::<ProfilerValue>::Need(config));
    if inputs.contains_key(source) {
        let v = inputs[source];
        assert(eval(comp, inputs, source) == Eval::Value(v));
        let first = none.push((source, v));
        assert(first[0] == (source, v));
        assert(run(comp, inputs, config, first) == Eval::Value(
            StarlarkProfilerConfigurationKey::spec_compute(v),
        ));
        assert(eval(comp, inputs, config) == Eval::Value(
            StarlarkProfilerConfigurationKey::spec_compute(v),
        ));
        let second = none.push((config, StarlarkProfilerConfigurationKey::spec_compute(v)));
        assert(second[0] == (config, StarlarkProfilerConfigurationKey::spec_compute(v)));
        assert(run(comp, inputs, mode, second) == Eval::Value(
            StarlarkProfileModeForIntermediateAnalysisKey::spec_compute(
                StarlarkProfilerConfigurationKey::spec_compute(v),
            ),
        ));
    } else {
        assert(eval(comp, inputs, source) == Eval::<ProfilerValue>::Missing(source));
        assert(eval(comp, inputs, config) == Eval::<ProfilerValue>::Missing(source));
    }
}

/// Setting the injected profiler configuration in a batch of updates.
pub trait SetStarlarkProfilerInstrumentation {
    /// The assignments of the batch, in the order they were made.
    spec fn assignments(&self) -> Seq<(Key, ProfilerValue)>;

    /// Assigns `instrumentation` to the injected configuration key.
    fn set_starlark_profiler_instrumentation_override(
        &mut self,
        instrumentation: StarlarkProfilerConfiguration,
    ) -> (r: Result<(), UpdateError>)
        ensures
            r.is_ok(),
            final(self).assignments() == old(self).assignments().push(
                (
                    StarlarkProfilerInstrumentationOverrideKey::spec_key(),
                    ProfilerValue::Override(instrumentation),
                ),
            ),
    ;
}

impl SetStarlarkProfilerInstrumentation for Updater<ProfilerValue> {
    open spec fn assignments(&self) -> Seq<(Key, ProfilerValue)> {
        self.pending()
    }

    fn set_starlark_profiler_instrumentation_override(
        &mut self,
        instrumentation: StarlarkProfilerConfiguration,
    ) -> (r: Result<(), UpdateError>) {
        self.set(
            StarlarkProfilerInstrumentationOverrideKey.key(),
            ProfilerValue::Override(instrumentation),
        )
    }
}

/// The answer that a request for the intermediate analysis key stands
/// for: the mode where it ended in one, and else the reason why there
/// is none.
pub open spec fn answer_of(resolved: Resolved<ProfilerValue>) -> Result<
    StarlarkProfileModeOrInstrumentation,
    ProfilerFailure,
> {
    match resolved {
        Resolved::Value(ProfilerValue::IntermediateMode(mode)) => Ok(mode),
        Resolved::Value(ProfilerValue::Failed(failure)) => Err(failure),
        Resolved::Value(_) => Err(ProfilerFailure::WrongKind),
        Resolved::Missing(_) => Err(ProfilerFailure::NotSet),
        Resolved::Cancelled => Err(ProfilerFailure::Cancelled),
    }
}

/// Reading the profiler's settings out of the engine, through a context
/// that is bound to a version and carries a cancellation signal.
pub trait GetStarlarkProfilerInstrumentation {
    /// The engine is in a consistent state.
    spec fn ready(&self) -> bool;

    /// The engine's store of injected values.
    spec fn store(&self) -> &Inputs<ProfilerValue>;

    /// What the engine remembers of the keys, and what it did.
    spec fn memory(&self) -> &Graph<ProfilerValue>;

    /// Profile mode for the analysis of targets that are not the last,
    /// at the version of `ctx`.
    ///
    /// The call is one request for the intermediate analysis key at
    /// that version under the signal of `ctx`, and its result is the
    /// answer that the request stands for. Under a tripped signal that
    /// is the failure `Cancelled`; otherwise it is what follows from
    /// the configuration that is injected at that version.
    fn get_profile_mode_for_intermediate_analysis(&mut self, ctx: &ComputationContext) -> (r:
        Result<StarlarkProfileModeOrInstrumentation, ProfilerFailure>)
        requires
            old(self).ready(),
            ctx.version().0 <= old(self).store().current().0,
        ensures
            final(self).ready(),
            final(self).store() == old(self).store(),
            exists|resolved: Resolved<ProfilerValue>|
                r == answer_of(resolved) && #[trigger] Graph::resolution(
                    old(self).memory(),
                    final(self).memory(),
                    &ProfilerKeys,
                    old(self).store(),
                    StarlarkProfileModeForIntermediateAnalysisKey::spec_key(),
                    ctx.version(),
                    ctx.is_cancelled(),
                    resolved,
                ),
            ctx.is_cancelled() ==> r == Err::<
                StarlarkProfileModeOrInstrumentation,
                ProfilerFailure,
            >(ProfilerFailure::Cancelled),
            !ctx.is_cancelled() ==> r == intermediate_mode_of(
                lookup(
                    old(self).store().entries(),
                    StarlarkProfilerInstrumentationOverrideKey::spec_key(),
                    ctx.version(),
                ),
            ),
    ;
}

impl GetStarlarkProfilerInstrumentation for Engine<ProfilerValue, ProfilerKeys> {
    open spec fn ready(&self) -> bool {
        self.wf()
    }

    open spec fn store(&self) -> &Inputs<ProfilerValue> {
        self.inputs()
    }

    open spec fn memory(&self) -> &Graph<ProfilerValue> {
        self.graph()
    }

    fn get_profile_mode_for_intermediate_analysis(&mut self, ctx: &ComputationContext) -> (r:
        Result<StarlarkProfileModeOrInstrumentation, ProfilerFailure>) {
        proof {
            lemma_intermediate_mode_value(self.inputs().snapshot(ctx.version()));
        }
        let resolved = ctx.compute(self, StarlarkProfileModeForIntermediateAnalysisKey.key());
        let answer = match resolved {
            Resolved::Value(ProfilerValue::IntermediateMode(mode)) => Ok(mode),
            Resolved::Value(ProfilerValue::Failed(failure)) => Err(failure),
            Resolved::Value(_) => Err(ProfilerFailure::WrongKind),
            Resolved::Missing(_) => Err(ProfilerFailure::NotSet),
            Resolved::Cancelled => Err(ProfilerFailure::Cancelled),
        };
        proof {
            assert(answer == answer_of(resolved));
            assert(Graph::resolution(
                old(self).memory(),
                self.memory(),
                &ProfilerKeys,
                old(self).store(),
                StarlarkProfileModeForIntermediateAnalysisKey::spec_key(),
                ctx.version(),
                ctx.is_cancelled(),
                resolved,
            ));
        }
        answer
    }
}

} // verus!
