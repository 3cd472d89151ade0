use anemoi::config::ModelProfileConfig;
use anemoi::model::{
    DecisionReason, Explanation, ModelId, RequestId, RuntimeId, RuntimeMemorySnapshot,
};

#[test]
fn runtime_memory_pressure_is_none_without_total() {
    let memory = RuntimeMemorySnapshot {
        vram_total_mb: None,
        vram_used_mb: Some(12_000),
        ram_total_mb: None,
        ram_used_mb: None,
    };

    assert_eq!(memory.pressure_percent(), None);
}

#[test]
fn runtime_memory_pressure_calculates_percent() {
    let memory = RuntimeMemorySnapshot {
        vram_total_mb: Some(24_000),
        vram_used_mb: Some(18_000),
        ram_total_mb: None,
        ram_used_mb: None,
    };

    assert_eq!(memory.pressure_percent(), Some(75));
}

#[test]
fn into_profile_carries_supports_streaming() {
    let config = ModelProfileConfig {
        family: "qwen".to_string(),
        parameter_class: "9b".to_string(),
        context_window: None,
        vram_required_mb: None,
        ram_required_mb: None,
        cold_load_estimate_ms: None,
        supported_runtimes: vec![RuntimeId("llama_swap".to_string())],
        supports_streaming: Some(true),
    };

    let profile = config.into_profile(ModelId("qwen9b".to_string()));

    assert_eq!(profile.supports_streaming, Some(true));
}

#[test]
fn into_profile_keeps_every_field_and_takes_the_id() {
    let config = ModelProfileConfig {
        family: "granite".to_string(),
        parameter_class: "8b".to_string(),
        context_window: Some(8192),
        vram_required_mb: Some(8000),
        ram_required_mb: Some(10000),
        cold_load_estimate_ms: Some(12000),
        supported_runtimes: vec![RuntimeId("mock".to_string()), RuntimeId("ollama".to_string())],
        supports_streaming: Some(false),
    };

    let profile = config.into_profile(ModelId("granite8b".to_string()));

    assert_eq!(profile.id, ModelId("granite8b".to_string()));
    assert_eq!(profile.family, "granite");
    assert_eq!(profile.parameter_class, "8b");
    assert_eq!(profile.context_window, Some(8192));
    assert_eq!(profile.vram_required_mb, Some(8000));
    assert_eq!(profile.ram_required_mb, Some(10000));
    assert_eq!(profile.cold_load_estimate_ms, Some(12000));
    assert_eq!(profile.supported_runtimes.len(), 2);
    assert_eq!(profile.supports_streaming, Some(false));
}

#[test]
fn runtime_memory_pressure_rounds_down() {
    let memory = RuntimeMemorySnapshot {
        vram_total_mb: Some(3),
        vram_used_mb: Some(2),
        ram_total_mb: None,
        ram_used_mb: None,
    };

    assert_eq!(memory.pressure_percent(), Some(66));
}

#[test]
fn runtime_memory_pressure_is_none_without_usage() {
    let memory = RuntimeMemorySnapshot {
        vram_total_mb: Some(24_000),
        vram_used_mb: None,
        ram_total_mb: None,
        ram_used_mb: None,
    };

    assert_eq!(memory.pressure_percent(), None);
}

#[test]
fn request_id_is_a_hyphenated_uuid() {
    let id = RequestId::new();

    assert_eq!(id.0.len(), 36);
    let parsed = uuid::Uuid::parse_str(&id.0).expect("uuid request id");
    assert_eq!(parsed.to_string(), id.0);
}

#[test]
fn pinning_policy_explanation_names_protected_model() {
    let explanation = Explanation {
        summary: "Protected keep-hot model".to_string(),
        reasons: vec![DecisionReason {
            code: "eviction.protected".to_string(),
            detail: "keep_hot group member protected from eviction".to_string(),
            impact: 100,
        }],
        rejected_options: vec![],
    };

    assert!(
        explanation.summary.contains("protected")
            || explanation.reasons.iter().any(|r| r.code == "eviction.protected")
    );
}

#[test]
fn serializes_residency_state_as_snake_case() {
    let json = serde_json::to_string(anemoi::model::residency_state_str(anemoi::model::ResidencyState::HotGpu))
        .expect("json");

    assert_eq!(json, "\"hot_gpu\"");
}

#[test]
fn serializes_decision_action_as_snake_case() {
    let json = serde_json::to_string(anemoi::model::decision_action_str(anemoi::model::DecisionAction::StageBackground))
        .expect("json");

    assert_eq!(json, "\"stage_background\"");
}
