use incremental::cancellation::CancellationContext;
use incremental::engine::Engine;
use incremental::graph::Resolved;
use incremental::key::Key;
use incremental::graph::Event;
use incremental::profiler::GetStarlarkProfilerInstrumentation;
use incremental::profiler::ProfileMode;
use incremental::profiler::ProfilerFailure;
use incremental::profiler::ProfilerKeys;
use incremental::profiler::ProfilerValue;
use incremental::profiler::SetStarlarkProfilerInstrumentation;
use incremental::profiler::StarlarkProfileModeForIntermediateAnalysisKey;
use incremental::profiler::StarlarkProfileModeOrInstrumentation;
use incremental::profiler::StarlarkProfilerConfiguration;
use incremental::profiler::StarlarkProfilerConfigurationKey;
use incremental::profiler::StarlarkProfilerError;
use incremental::profiler::StarlarkProfilerInstrumentationOverrideKey;

const NOT_LAST: StarlarkProfilerError = StarlarkProfilerError::ProfilerConfigurationNotLast;

type ProfilerEngine = Engine<ProfilerValue, ProfilerKeys>;

/// The mode for intermediate analysis at the engine's newest version.
fn newest(
    engine: &mut ProfilerEngine,
) -> Result<StarlarkProfileModeOrInstrumentation, ProfilerFailure> {
    let ctx = engine.context();
    engine.get_profile_mode_for_intermediate_analysis(&ctx)
}

fn inject(engine: &mut ProfilerEngine, configuration: StarlarkProfilerConfiguration) {
    let mut batch = engine.begin_update();
    assert!(batch.set_starlark_profiler_instrumentation_override(configuration).is_ok());
    engine.commit(batch);
}

fn all_configurations(mode: ProfileMode) -> Vec<StarlarkProfilerConfiguration> {
    vec![
        StarlarkProfilerConfiguration::Disabled,
        StarlarkProfilerConfiguration::ProfileLastLoading(mode),
        StarlarkProfilerConfiguration::ProfileLastAnalysis(mode),
        StarlarkProfilerConfiguration::ProfileAnalysisRecursively(mode),
        StarlarkProfilerConfiguration::ProfileBxl(mode),
    ]
}

#[test]
fn default_configuration_does_not_profile() {
    assert_eq!(StarlarkProfilerConfiguration::default(), StarlarkProfilerConfiguration::Disabled);
}

#[test]
fn only_bxl_profiles_last_bxl() {
    let mode = ProfileMode::TimeFlame;
    let got: Vec<_> = all_configurations(mode).iter().map(|c| c.profile_last_bxl().copied()).collect();
    assert_eq!(got, vec![Err(NOT_LAST), Err(NOT_LAST), Err(NOT_LAST), Err(NOT_LAST), Ok(mode)]);
}

#[test]
fn only_last_loading_profiles_last_loading() {
    let mode = ProfileMode::Statement;
    let got: Vec<_> =
        all_configurations(mode).iter().map(|c| c.profile_last_loading().copied()).collect();
    assert_eq!(got, vec![Err(NOT_LAST), Ok(mode), Err(NOT_LAST), Err(NOT_LAST), Err(NOT_LAST)]);
}

#[test]
fn both_analysis_configurations_profile_last_analysis() {
    let mode = ProfileMode::HeapFlameRetained;
    let got: Vec<_> =
        all_configurations(mode).iter().map(|c| c.profile_last_analysis().copied()).collect();
    assert_eq!(got, vec![Err(NOT_LAST), Err(NOT_LAST), Ok(mode), Ok(mode), Err(NOT_LAST)]);
}

#[test]
fn only_recursive_analysis_profiles_intermediate_targets() {
    let mode = ProfileMode::Bytecode;
    let got: Vec<_> = all_configurations(mode)
        .iter()
        .map(|c| c.profile_mode_for_intermediate_analysis())
        .collect();
    let off = StarlarkProfileModeOrInstrumentation::Disabled;
    assert_eq!(
        got,
        vec![off, off, off, StarlarkProfileModeOrInstrumentation::Profile(mode), off]
    );
}

#[test]
fn error_message_is_as_documented() {
    assert_eq!(
        NOT_LAST.message(),
        "profiler is not configured to profile last element (internal error)"
    );
}

#[test]
fn key_equalities_compare_failures_like_values() {
    let a = StarlarkProfilerConfiguration::ProfileBxl(ProfileMode::Coverage);
    let b = StarlarkProfilerConfiguration::ProfileBxl(ProfileMode::Typecheck);
    assert!(StarlarkProfilerInstrumentationOverrideKey::equality(&a, &a));
    assert!(!StarlarkProfilerInstrumentationOverrideKey::equality(&a, &b));
    assert!(StarlarkProfilerConfigurationKey::equality(&Ok(a), &Ok(a)));
    assert!(!StarlarkProfilerConfigurationKey::equality(&Ok(a), &Ok(b)));
    assert!(StarlarkProfilerConfigurationKey::equality(
        &Err(ProfilerFailure::NotSet),
        &Err(ProfilerFailure::NotSet)
    ));
    assert!(!StarlarkProfilerConfigurationKey::equality(
        &Err(ProfilerFailure::NotSet),
        &Err(ProfilerFailure::WrongKind)
    ));
    assert!(!StarlarkProfilerConfigurationKey::equality(&Ok(a), &Err(ProfilerFailure::NotSet)));
    let on = StarlarkProfileModeOrInstrumentation::Profile(ProfileMode::Coverage);
    assert!(StarlarkProfileModeForIntermediateAnalysisKey::equality(&Ok(on), &Ok(on)));
    assert!(!StarlarkProfileModeForIntermediateAnalysisKey::equality(
        &Ok(on),
        &Err(ProfilerFailure::WrongKind)
    ));
    assert!(StarlarkProfileModeForIntermediateAnalysisKey::equality(
        &Err(ProfilerFailure::WrongKind),
        &Err(ProfilerFailure::WrongKind)
    ));
    assert!(!StarlarkProfileModeForIntermediateAnalysisKey::equality(
        &Err(ProfilerFailure::UnknownKey),
        &Err(ProfilerFailure::WrongKind)
    ));
}

#[test]
fn intermediate_mode_follows_the_injected_configuration() {
    let mut engine: Engine<ProfilerValue, ProfilerKeys> = Engine::new(ProfilerKeys);
    assert_eq!(
        newest(&mut engine),
        Err(ProfilerFailure::NotSet)
    );

    let mode = ProfileMode::HeapSummaryAllocated;
    let mut batch = engine.begin_update();
    assert!(batch
        .set_starlark_profiler_instrumentation_override(
            StarlarkProfilerConfiguration::ProfileAnalysisRecursively(mode)
        )
        .is_ok());
    engine.commit(batch);
    assert_eq!(
        newest(&mut engine),
        Ok(StarlarkProfileModeOrInstrumentation::Profile(mode))
    );

    let mode_key = StarlarkProfileModeForIntermediateAnalysisKey.key();
    let configuration_key = StarlarkProfilerConfigurationKey.key();
    // One run that found nothing injected, and one that found the configuration.
    assert_eq!(engine.graph().executions_of(&configuration_key), 2);
    assert_eq!(engine.graph().executions_of(&mode_key), 2);

    // Another configuration: both keys are computed again.
    let mut batch = engine.begin_update();
    assert!(batch
        .set_starlark_profiler_instrumentation_override(StarlarkProfilerConfiguration::ProfileBxl(mode))
        .is_ok());
    engine.commit(batch);
    assert_eq!(
        newest(&mut engine),
        Ok(StarlarkProfileModeOrInstrumentation::Disabled)
    );
    assert_eq!(engine.graph().executions_of(&configuration_key), 3);
    assert_eq!(engine.graph().executions_of(&mode_key), 3);

    // The same configuration once more: nothing is computed again.
    let mut batch = engine.begin_update();
    assert!(batch
        .set_starlark_profiler_instrumentation_override(StarlarkProfilerConfiguration::ProfileBxl(mode))
        .is_ok());
    engine.commit(batch);
    assert_eq!(
        newest(&mut engine),
        Ok(StarlarkProfileModeOrInstrumentation::Disabled)
    );
    assert_eq!(engine.graph().executions_of(&configuration_key), 3);
    assert_eq!(engine.graph().executions_of(&mode_key), 3);
    assert_eq!(engine.graph().event_log().last(), Some(&Event::Reused(mode_key)));
    assert_eq!(
        engine.graph().dependencies(&mode_key),
        Some(vec![configuration_key])
    );
    assert_eq!(
        engine.graph().dependencies(&configuration_key),
        Some(vec![StarlarkProfilerInstrumentationOverrideKey.key()])
    );
}

#[test]
fn value_of_the_wrong_kind_is_a_failure() {
    let mut engine: Engine<ProfilerValue, ProfilerKeys> = Engine::new(ProfilerKeys);
    let mut batch = engine.begin_update();
    assert!(batch
        .set(
            StarlarkProfilerInstrumentationOverrideKey.key(),
            ProfilerValue::IntermediateMode(StarlarkProfileModeOrInstrumentation::Disabled),
        )
        .is_ok());
    engine.commit(batch);
    assert_eq!(
        newest(&mut engine),
        Err(ProfilerFailure::WrongKind)
    );
}

#[test]
fn unknown_key_has_a_failure_for_its_value() {
    let mut engine: Engine<ProfilerValue, ProfilerKeys> = Engine::new(ProfilerKeys);
    let live = CancellationContext::new();
    let unknown = Key::computed(99, 0);
    let at = engine.current_version();
    assert!(matches!(
        engine.resolve(unknown, at, &live),
        Resolved::Value(ProfilerValue::Failed(ProfilerFailure::UnknownKey))
    ));
    // The failure is a value like any other: it is remembered.
    assert!(matches!(
        engine.resolve(unknown, at, &live),
        Resolved::Value(ProfilerValue::Failed(ProfilerFailure::UnknownKey))
    ));
    assert_eq!(engine.graph().executions_of(&unknown), 1);
}

#[test]
fn computations_of_the_keys_follow_what_they_read() {
    let c = StarlarkProfilerConfiguration::ProfileAnalysisRecursively(ProfileMode::Coverage);
    assert!(matches!(
        StarlarkProfilerConfigurationKey.compute(&ProfilerValue::Override(c)),
        ProfilerValue::Configuration(got) if got == c
    ));
    assert!(matches!(
        StarlarkProfilerConfigurationKey.compute(&ProfilerValue::Configuration(c)),
        ProfilerValue::Failed(ProfilerFailure::WrongKind)
    ));
    assert!(matches!(
        StarlarkProfileModeForIntermediateAnalysisKey.compute(&ProfilerValue::Configuration(c)),
        ProfilerValue::IntermediateMode(StarlarkProfileModeOrInstrumentation::Profile(
            ProfileMode::Coverage
        ))
    ));
    assert!(matches!(
        StarlarkProfileModeForIntermediateAnalysisKey
            .compute(&ProfilerValue::Failed(ProfilerFailure::NotSet)),
        ProfilerValue::Failed(ProfilerFailure::NotSet)
    ));
    assert!(matches!(
        StarlarkProfileModeForIntermediateAnalysisKey.compute(&ProfilerValue::Override(c)),
        ProfilerValue::Failed(ProfilerFailure::WrongKind)
    ));
}

#[test]
fn context_keeps_reading_at_its_own_version() {
    let mut engine: ProfilerEngine = Engine::new(ProfilerKeys);
    let mode = ProfileMode::Statement;
    inject(&mut engine, StarlarkProfilerConfiguration::ProfileAnalysisRecursively(mode));
    let earlier = engine.context();
    inject(&mut engine, StarlarkProfilerConfiguration::Disabled);
    assert_eq!(newest(&mut engine), Ok(StarlarkProfileModeOrInstrumentation::Disabled));
    assert_eq!(
        engine.get_profile_mode_for_intermediate_analysis(&earlier),
        Ok(StarlarkProfileModeOrInstrumentation::Profile(mode))
    );
    assert!(earlier.is_superseded(engine.current_version()));
}

#[test]
fn cancelled_context_gets_no_mode_and_leaves_nothing_behind() {
    let mut engine: ProfilerEngine = Engine::new(ProfilerKeys);
    inject(&mut engine, StarlarkProfilerConfiguration::ProfileBxl(ProfileMode::Coverage));
    let mode_key = StarlarkProfileModeForIntermediateAnalysisKey.key();
    let mut ctx = engine.context();
    ctx.cancel();
    assert_eq!(
        engine.get_profile_mode_for_intermediate_analysis(&ctx),
        Err(ProfilerFailure::Cancelled)
    );
    assert_eq!(engine.graph().executions_of(&mode_key), 0);
    assert!(engine.graph().value_of(&mode_key).is_none());
    assert_eq!(engine.graph().event_log(), &vec![Event::Cancelled(mode_key)]);

    // The next request that is not cancelled runs the computation, once.
    assert_eq!(newest(&mut engine), Ok(StarlarkProfileModeOrInstrumentation::Disabled));
    assert_eq!(engine.graph().executions_of(&mode_key), 1);
    assert_eq!(newest(&mut engine), Ok(StarlarkProfileModeOrInstrumentation::Disabled));
    assert_eq!(engine.graph().executions_of(&mode_key), 1);
    assert_eq!(engine.graph().event_log().last(), Some(&Event::Hit(mode_key)));
}

#[test]
fn repeated_identical_failure_is_reused() {
    let mut engine: ProfilerEngine = Engine::new(ProfilerKeys);
    let mode_key = StarlarkProfileModeForIntermediateAnalysisKey.key();
    let configuration_key = StarlarkProfilerConfigurationKey.key();
    let wrong = |mode| ProfilerValue::IntermediateMode(StarlarkProfileModeOrInstrumentation::Profile(mode));

    let mut batch = engine.begin_update();
    assert!(batch.set(StarlarkProfilerInstrumentationOverrideKey.key(), wrong(ProfileMode::Coverage)).is_ok());
    engine.commit(batch);
    assert_eq!(newest(&mut engine), Err(ProfilerFailure::WrongKind));
    assert_eq!(engine.graph().executions_of(&configuration_key), 1);
    assert_eq!(engine.graph().executions_of(&mode_key), 1);

    // Another value of the wrong kind: the configuration is computed again and
    // fails as before, so what depends on it is kept.
    let mut batch = engine.begin_update();
    assert!(batch.set(StarlarkProfilerInstrumentationOverrideKey.key(), wrong(ProfileMode::Bytecode)).is_ok());
    engine.commit(batch);
    assert_eq!(newest(&mut engine), Err(ProfilerFailure::WrongKind));
    assert_eq!(engine.graph().executions_of(&configuration_key), 2);
    assert_eq!(engine.graph().executions_of(&mode_key), 1);
    assert_eq!(engine.graph().event_log().last(), Some(&Event::Reused(mode_key)));
}
