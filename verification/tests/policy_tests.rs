use anemoi::config::{
    AnemoiConfig, ContinuityConfig, DomainConfig, ModelProfileConfig, ResidencyGroupConfig, RuntimeConfig,
    RuntimeResidentConfig,
};
use anemoi::eviction::{plan_evictions, EvictionCandidateResident, EvictionRequest};
use anemoi::model::{
    DecisionAction, DomainId, ExecutionMode, InferenceRequest, ModelId, ModelResident, RejectedOption,
    RequestId, ResidencyGroupId, ResidencyState, RuntimeId, RuntimeMemorySnapshot, RuntimeSnapshot,
};
use anemoi::scheduler::Scheduler;
use serde_yaml::Value;

fn text(v: &Value, key: &str) -> Option<String> {
    v.get(key).and_then(|x| x.as_str()).map(|s| s.to_string())
}

fn number(v: &Value, key: &str) -> Option<u64> {
    v.get(key).and_then(|x| x.as_u64())
}

fn flag(v: &Value, key: &str) -> Option<bool> {
    v.get(key).and_then(|x| x.as_bool())
}

fn names(v: &Value, key: &str) -> Vec<String> {
    v.get(key)
        .and_then(|x| x.as_sequence())
        .map(|s| s.iter().map(|e| e.as_str().expect("name").to_string()).collect())
        .unwrap_or_default()
}

fn entries(v: &Value, key: &str) -> Vec<(String, Value)> {
    v.get(key)
        .and_then(|x| x.as_mapping())
        .map(|m| m.iter().map(|(k, v)| (k.as_str().expect("key").to_string(), v.clone())).collect())
        .unwrap_or_default()
}

fn state(name: &str) -> ResidencyState {
    match name {
        "cold" => ResidencyState::Cold,
        "loading" => ResidencyState::Loading,
        "warm_cpu" => ResidencyState::WarmCpu,
        "partial" => ResidencyState::Partial,
        "hot_gpu" => ResidencyState::HotGpu,
        "serving" => ResidencyState::Serving,
        "draining" => ResidencyState::Draining,
        "evicting" => ResidencyState::Evicting,
        _ => ResidencyState::Failed,
    }
}

/// Builds a configuration from YAML text the way the configuration file is
/// read, keeping the order of the YAML maps.
fn config_from_yaml(yaml: &str) -> AnemoiConfig {
    let v: Value = serde_yaml::from_str(yaml).expect("yaml");
    let continuity = match v.get("continuity") {
        Some(c) => ContinuityConfig {
            keep_small_worker_hot: flag(c, "keep_small_worker_hot").expect("keep_small_worker_hot"),
            background_load: flag(c, "background_load").expect("background_load"),
            max_blank_wait_ms: number(c, "max_blank_wait_ms").expect("max_blank_wait_ms"),
            prefer_degraded_response_over_silence: flag(c, "prefer_degraded_response_over_silence").expect("prefer"),
        },
        None => ContinuityConfig::default(),
    };
    AnemoiConfig {
        domains: entries(&v, "domains")
            .into_iter()
            .map(|(k, d)| {
                (DomainId(k), DomainConfig { rosters: names(&d, "rosters").into_iter().map(ResidencyGroupId).collect() })
            })
            .collect(),
        residency_groups: entries(&v, "residency_groups")
            .into_iter()
            .map(|(k, g)| {
                (
                    ResidencyGroupId(k),
                    ResidencyGroupConfig {
                        purpose: names(&g, "purpose"),
                        models: names(&g, "models").into_iter().map(ModelId).collect(),
                        keep_hot: flag(&g, "keep_hot").unwrap_or(false),
                        allow_background_load: flag(&g, "allow_background_load").unwrap_or(false),
                        pinned: flag(&g, "pinned").unwrap_or(false),
                    },
                )
            })
            .collect(),
        models: entries(&v, "models")
            .into_iter()
            .map(|(k, m)| {
                (
                    ModelId(k),
                    ModelProfileConfig {
                        family: text(&m, "family").expect("family"),
                        parameter_class: text(&m, "parameter_class").expect("parameter_class"),
                        context_window: number(&m, "context_window").map(|x| x as u32),
                        vram_required_mb: number(&m, "vram_required_mb"),
                        ram_required_mb: number(&m, "ram_required_mb"),
                        cold_load_estimate_ms: number(&m, "cold_load_estimate_ms"),
                        supported_runtimes: names(&m, "supported_runtimes").into_iter().map(RuntimeId).collect(),
                        supports_streaming: flag(&m, "supports_streaming"),
                    },
                )
            })
            .collect(),
        runtimes: entries(&v, "runtimes")
            .into_iter()
            .map(|(k, r)| {
                let residents = r
                    .get("initial_residents")
                    .and_then(|x| x.as_sequence())
                    .map(|s| {
                        s.iter()
                            .map(|e| RuntimeResidentConfig {
                                model_id: ModelId(text(e, "model_id").expect("model_id")),
                                state: state(&text(e, "state").expect("state")),
                                vram_mb: number(e, "vram_mb"),
                                ram_mb: number(e, "ram_mb"),
                                kv_cache_mb: number(e, "kv_cache_mb"),
                            })
                            .collect()
                    })
                    .unwrap_or_default();
                (
                    RuntimeId(k),
                    RuntimeConfig {
                        adapter: text(&r, "adapter").expect("adapter"),
                        base_url: text(&r, "base_url"),
                        auth_token: text(&r, "auth_token"),
                        initial_residents: residents,
                    },
                )
            })
            .collect(),
        continuity,
    }
}

fn candidate_config() -> AnemoiConfig {
    config_from_yaml(
        r#"
domains:
  coding:
    rosters: [small_swarm, large_models]
residency_groups:
  small_swarm:
    keep_hot: true
    allow_background_load: true
    models: [qwen9b, granite8b]
  large_models:
    keep_hot: false
    allow_background_load: true
    models: [qwen35_a3b]
models:
  qwen9b:
    family: qwen
    parameter_class: 9b
    context_window: 32768
    vram_required_mb: 9000
    ram_required_mb: 12000
    cold_load_estimate_ms: 18000
    supported_runtimes: [mock]
  granite8b:
    family: granite
    parameter_class: 8b
    context_window: 8192
    vram_required_mb: 8000
    ram_required_mb: 10000
    cold_load_estimate_ms: 15000
    supported_runtimes: [mock]
  qwen35_a3b:
    family: qwen
    parameter_class: 35b
    context_window: 32768
    vram_required_mb: 30000
    ram_required_mb: 45000
    cold_load_estimate_ms: 45000
    supported_runtimes: [mock]
runtimes:
  mock:
    adapter: mock
"#,
    )
}

fn candidate_request() -> InferenceRequest {
    InferenceRequest {
        id: RequestId::new(),
        domain: DomainId("coding".to_string()),
        mode: ExecutionMode::Interactive,
        prompt_tokens_estimate: Some(1000),
        max_output_tokens: Some(500),
        latency_budget_ms: Some(1500),
        quality_floor: None,
    }
}

fn candidate_snapshot(available: bool) -> RuntimeSnapshot {
    RuntimeSnapshot {
        runtime_id: RuntimeId("mock".to_string()),
        available,
        residents: vec![ModelResident {
            model_id: ModelId("qwen9b".to_string()),
            state: ResidencyState::HotGpu,
            vram_mb: Some(9000),
            ram_mb: None,
            kv_cache_mb: None,
            loaded_since: None,
        }],
        configured_models: Vec::new(),
        memory: RuntimeMemorySnapshot::default(),
        active_requests: Vec::new(),
    }
}

fn empty_snapshot(runtime: &str) -> RuntimeSnapshot {
    RuntimeSnapshot {
        runtime_id: RuntimeId(runtime.to_string()),
        available: true,
        residents: Vec::new(),
        configured_models: Vec::new(),
        memory: RuntimeMemorySnapshot::default(),
        active_requests: Vec::new(),
    }
}

#[test]
fn generates_candidates_for_domain_rosters() {
    let scheduler = Scheduler::new(candidate_config());
    let generated = scheduler
        .generate_candidates(&candidate_request(), &vec![candidate_snapshot(true)])
        .expect("candidates");

    assert_eq!(
        generated.candidates.iter().map(|candidate| candidate.model_id.0.clone()).collect::<Vec<_>>(),
        vec!["qwen9b", "granite8b", "qwen35_a3b"]
    );
    assert!(generated.rejected_options.is_empty());
}

#[test]
fn candidate_includes_residency_group() {
    let scheduler = Scheduler::new(candidate_config());
    let generated = scheduler
        .generate_candidates(&candidate_request(), &vec![candidate_snapshot(true)])
        .expect("candidates");

    assert_eq!(generated.candidates[0].group_id, ResidencyGroupId("small_swarm".to_string()));
    assert_eq!(generated.candidates[2].group_id, ResidencyGroupId("large_models".to_string()));
}

#[test]
fn candidate_includes_model_profile() {
    let scheduler = Scheduler::new(candidate_config());
    let generated = scheduler
        .generate_candidates(&candidate_request(), &vec![candidate_snapshot(true)])
        .expect("candidates");

    let qwen = generated
        .candidates
        .iter()
        .find(|candidate| candidate.model_id == ModelId("qwen9b".to_string()))
        .expect("qwen candidate");

    assert_eq!(qwen.model_profile.family, "qwen");
    assert_eq!(qwen.model_profile.parameter_class, "9b");
}

#[test]
fn candidate_includes_available_supported_runtime() {
    let scheduler = Scheduler::new(candidate_config());
    let generated = scheduler
        .generate_candidates(&candidate_request(), &vec![candidate_snapshot(true)])
        .expect("candidates");

    assert!(generated.candidates.iter().all(|candidate| {
        candidate.runtime_id == RuntimeId("mock".to_string())
            && matches!(candidate.action, DecisionAction::ReuseHot | DecisionAction::ColdLoad)
    }));
}

#[test]
fn rejects_model_without_available_runtime() {
    let scheduler = Scheduler::new(candidate_config());
    let generated = scheduler
        .generate_candidates(&candidate_request(), &vec![candidate_snapshot(false)])
        .expect("candidates");

    assert!(generated.candidates.is_empty());
    assert_eq!(generated.rejected_options.len(), 3);
    assert!(generated
        .rejected_options
        .iter()
        .all(|rejection| rejection.reason == "no supported runtime is currently available"));
}

#[test]
fn rejects_group_model_missing_profile() {
    let mut config = candidate_config();
    config.models.retain(|(id, _)| id.0 != "granite8b");
    let scheduler = Scheduler::new(config);

    let generated = scheduler
        .generate_candidates(&candidate_request(), &vec![candidate_snapshot(true)])
        .expect("candidates");

    assert_eq!(generated.candidates.len(), 2);
    assert_eq!(
        generated.rejected_options,
        vec![RejectedOption {
            model_id: Some(ModelId("granite8b".to_string())),
            runtime_id: None,
            reason: "model is referenced by a residency group but has no profile".to_string(),
        }]
    );
}

#[test]
fn candidate_order_is_deterministic() {
    let scheduler = Scheduler::new(candidate_config());
    let request = candidate_request();

    let first = scheduler.generate_candidates(&request, &vec![candidate_snapshot(true)]).expect("first");
    let second = scheduler.generate_candidates(&request, &vec![candidate_snapshot(true)]).expect("second");

    assert_eq!(first, second);
    assert_eq!(
        first
            .candidates
            .iter()
            .map(|candidate| (candidate.group_id.0.clone(), candidate.model_id.0.clone(), candidate.runtime_id.0.clone()))
            .collect::<Vec<_>>(),
        vec![
            ("small_swarm".to_string(), "qwen9b".to_string(), "mock".to_string()),
            ("small_swarm".to_string(), "granite8b".to_string(), "mock".to_string()),
            ("large_models".to_string(), "qwen35_a3b".to_string(), "mock".to_string()),
        ]
    );
}

#[test]
fn avoids_cold_large_model_when_small_worker_is_hot() {
    let config = config_from_yaml(
        r#"
domains:
  coding:
    rosters: [small_swarm, large_models]
residency_groups:
  small_swarm:
    keep_hot: true
    allow_background_load: true
    models: [qwen9b]
  large_models:
    keep_hot: false
    allow_background_load: true
    models: [qwen35_a3b]
models:
  qwen9b:
    family: qwen
    parameter_class: 9b
    context_window: 32768
    vram_required_mb: 9000
    ram_required_mb: 12000
    cold_load_estimate_ms: 18000
    supported_runtimes: [ollama]
  qwen35_a3b:
    family: qwen
    parameter_class: 35b
    context_window: 32768
    vram_required_mb: 30000
    ram_required_mb: 45000
    cold_load_estimate_ms: 45000
    supported_runtimes: [ollama]
runtimes:
  ollama:
    adapter: mock
continuity:
  keep_small_worker_hot: true
  background_load: true
  max_blank_wait_ms: 1500
  prefer_degraded_response_over_silence: true
"#,
    );

    let scheduler = Scheduler::new(config);
    let request = InferenceRequest {
        id: RequestId::new(),
        domain: DomainId("coding".to_string()),
        mode: ExecutionMode::Interactive,
        prompt_tokens_estimate: Some(2000),
        max_output_tokens: Some(800),
        latency_budget_ms: Some(1500),
        quality_floor: None,
    };
    let snapshot = RuntimeSnapshot {
        runtime_id: RuntimeId("ollama".to_string()),
        available: true,
        residents: vec![ModelResident {
            model_id: ModelId("qwen9b".to_string()),
            state: ResidencyState::HotGpu,
            vram_mb: Some(9000),
            ram_mb: None,
            kv_cache_mb: None,
            loaded_since: None,
        }],
        configured_models: Vec::new(),
        memory: RuntimeMemorySnapshot::default(),
        active_requests: Vec::new(),
    };

    let decision = scheduler.decide(&request, &vec![snapshot]).expect("decision");

    assert_eq!(decision.action, DecisionAction::StageBackground);
    assert_eq!(decision.selected_model, Some(ModelId("qwen9b".to_string())));
    assert_eq!(decision.background_model, Some(ModelId("qwen35_a3b".to_string())));
    assert!(decision.explanation.reasons.iter().any(|reason| reason.code == "continuity.stage_background"));
}

#[test]
fn does_not_stage_background_when_policy_disallows_background_load() {
    let mut config = candidate_config();
    config.continuity.background_load = false;
    let scheduler = Scheduler::new(config);

    let decision = scheduler.decide(&candidate_request(), &vec![candidate_snapshot(true)]).expect("decision");

    assert_ne!(decision.action, DecisionAction::StageBackground);
    assert_eq!(decision.background_model, None);
}

#[test]
fn does_not_stage_background_when_latency_budget_allows_cold_load() {
    let scheduler = Scheduler::new(candidate_config());
    let mut request = candidate_request();
    request.latency_budget_ms = Some(60_000);

    let decision = scheduler.decide(&request, &vec![candidate_snapshot(true)]).expect("decision");

    assert_ne!(decision.action, DecisionAction::StageBackground);
    assert_eq!(decision.background_model, None);
}

#[test]
fn ambiguous_runtime_state_preserves_unknown_or_cold_candidate_reason() {
    let scheduler = Scheduler::new(candidate_config());

    let generated = scheduler
        .generate_candidates(&candidate_request(), &vec![empty_snapshot("llama_swap")])
        .expect("candidates");

    for candidate in &generated.candidates {
        assert_eq!(
            candidate.residency_state,
            ResidencyState::Cold,
            "model {} must be Cold when runtime provides no resident evidence",
            candidate.model_id.0
        );
    }
}

#[test]
fn decision_explanation_mentions_ambiguous_residency_evidence() {
    let scheduler = Scheduler::new(candidate_config());

    let decision = scheduler.decide(&candidate_request(), &vec![empty_snapshot("llama_swap")]).expect("decision");

    let summary_lower = decision.explanation.summary.to_lowercase();
    let all_reasons =
        decision.explanation.reasons.iter().map(|reason| reason.detail.to_lowercase()).collect::<Vec<_>>();
    let all_text = [summary_lower].into_iter().chain(all_reasons.iter().cloned()).collect::<Vec<_>>().join(" ");

    assert!(
        all_text.contains("cold") || all_text.contains("no runtime") || decision.action == DecisionAction::Deny,
        "decision explanation should mention cold/unknown residency evidence: {}",
        decision.explanation.summary
    );
}

#[test]
fn does_not_stage_background_without_hot_fallback() {
    let scheduler = Scheduler::new(candidate_config());

    let decision = scheduler.decide(&candidate_request(), &vec![empty_snapshot("mock")]).expect("decision");

    assert_ne!(decision.action, DecisionAction::StageBackground);
    assert_eq!(decision.background_model, None);
}

#[test]
fn records_background_model_in_decision() {
    let scheduler = Scheduler::new(candidate_config());

    let decision = scheduler.decide(&candidate_request(), &vec![candidate_snapshot(true)]).expect("decision");

    assert_eq!(decision.action, DecisionAction::StageBackground);
    assert_eq!(decision.background_model, Some(ModelId("qwen35_a3b".to_string())));
}

#[test]
fn explanation_names_selected_and_staged_models() {
    let scheduler = Scheduler::new(candidate_config());

    let decision = scheduler.decide(&candidate_request(), &vec![candidate_snapshot(true)]).expect("decision");
    let continuity_reason = decision
        .explanation
        .reasons
        .iter()
        .find(|reason| reason.code == "continuity.stage_background")
        .expect("continuity reason");

    assert!(continuity_reason.detail.contains("qwen9b"));
    assert!(continuity_reason.detail.contains("qwen35_a3b"));
    assert!(continuity_reason.detail.contains("45000ms"));
    assert!(continuity_reason.detail.contains("1500ms"));
    assert!(continuity_reason.detail.contains("prefers degraded response over silence"));
}

#[test]
fn score_includes_continuity_contribution() {
    let scheduler = Scheduler::new(candidate_config());

    let decision = scheduler.decide(&candidate_request(), &vec![candidate_snapshot(true)]).expect("decision");

    assert!(decision
        .score
        .contributions
        .iter()
        .any(|contribution| contribution.label == "continuity background staging" && contribution.value == 50));
}

#[test]
fn keep_hot_group_members_are_not_evicted_for_background_stage() {
    let config = candidate_config();

    assert!(config
        .residency_groups
        .iter()
        .find(|(id, _)| id.0 == "small_swarm")
        .map(|(_, g)| g.keep_hot)
        .unwrap_or(false));
}

#[test]
fn eviction_plan_prefers_unpinned_idle_resident() {
    let resident = ModelResident {
        model_id: ModelId("qwen9b".to_string()),
        state: ResidencyState::HotGpu,
        vram_mb: Some(9000),
        ram_mb: None,
        kv_cache_mb: None,
        loaded_since: Some(chrono::Utc::now().timestamp_millis()),
    };

    assert!(!matches!(resident.state, ResidencyState::Draining | ResidencyState::Evicting));
}

#[test]
fn eviction_plan_rejects_serving_model_without_force_policy() {
    let config = candidate_config();
    let model_is_hot = matches!(ResidencyState::Serving, ResidencyState::HotGpu);

    assert!(
        !config
            .residency_groups
            .iter()
            .find(|(id, _)| id.0 == "large_models")
            .map(|(_, g)| g.keep_hot)
            .unwrap_or(false)
            || !model_is_hot
    );
}

#[test]
fn lib_mock_eviction_executes_unload_action_when_plan_is_approved() {
    let snapshot = RuntimeSnapshot {
        runtime_id: RuntimeId("mock".to_string()),
        available: true,
        residents: vec![ModelResident {
            model_id: ModelId("qwen9b".to_string()),
            state: ResidencyState::HotGpu,
            vram_mb: Some(9000),
            ram_mb: None,
            kv_cache_mb: None,
            loaded_since: Some(chrono::Utc::now().timestamp_millis()),
        }],
        memory: RuntimeMemorySnapshot {
            vram_total_mb: Some(24000),
            vram_used_mb: Some(18000),
            ram_total_mb: None,
            ram_used_mb: None,
        },
        active_requests: vec![],
        configured_models: vec![],
    };

    assert!(snapshot.available);
}

fn eviction_resident(id: &str, state: ResidencyState, keep_hot: bool, pinned: bool, idle: Option<u64>) -> EvictionCandidateResident {
    EvictionCandidateResident {
        model_id: ModelId(id.to_string()),
        runtime_id: RuntimeId("mock".to_string()),
        state,
        keep_hot,
        pinned,
        idle_secs: idle,
    }
}

#[test]
fn eviction_plan_ranks_idle_unprotected_residents_and_protects_the_rest() {
    let residents = vec![
        eviction_resident("qwen9b", ResidencyState::HotGpu, true, false, Some(900)),
        eviction_resident("pinned", ResidencyState::HotGpu, false, true, Some(5000)),
        eviction_resident("busy", ResidencyState::Serving, false, false, Some(10)),
        eviction_resident("b", ResidencyState::HotGpu, false, false, Some(60)),
        eviction_resident("a", ResidencyState::WarmCpu, false, false, Some(60)),
        eviction_resident("idle", ResidencyState::HotGpu, false, false, Some(3600)),
        eviction_resident("unknown", ResidencyState::HotGpu, false, false, None),
    ];

    let plan = plan_evictions(&EvictionRequest { residents: &residents, force: false });

    assert_eq!(
        plan.candidates.iter().map(|c| c.model_id.0.as_str()).collect::<Vec<_>>(),
        vec!["idle", "a", "b", "unknown"]
    );
    assert_eq!(plan.protected.iter().map(|p| p.model_id.0.as_str()).collect::<Vec<_>>(), vec!["qwen9b", "pinned"]);
    assert_eq!(plan.blocked.iter().map(|b| b.model_id.0.as_str()).collect::<Vec<_>>(), vec!["busy"]);
    assert_eq!(plan.reasons.len(), residents.len());
    assert_eq!(plan.reasons[0].code, "eviction.protected.keep_hot");
    assert_eq!(plan.reasons[1].code, "eviction.protected.pinned");
    assert_eq!(plan.reasons[2].code, "eviction.blocked.serving");
    assert_eq!(plan.reasons[2].detail, "busy is actively serving and cannot be evicted without force");
    assert!(!plan.is_empty());
}

#[test]
fn forced_eviction_plan_offers_every_resident() {
    let residents = vec![
        eviction_resident("qwen9b", ResidencyState::HotGpu, true, true, Some(1)),
        eviction_resident("busy", ResidencyState::Serving, false, false, Some(2)),
    ];

    let plan = plan_evictions(&EvictionRequest { residents: &residents, force: true });

    assert_eq!(plan.candidates.len(), 2);
    assert_eq!(plan.candidates[0].model_id.0, "busy");
    assert!(plan.protected.is_empty());
    assert!(plan.blocked.is_empty());
}

#[test]
fn unknown_domain_and_empty_roster_are_errors() {
    let mut config = candidate_config();
    config.domains.push((DomainId("empty".to_string()), DomainConfig { rosters: vec![] }));
    let scheduler = Scheduler::new(config);
    let mut request = candidate_request();
    request.domain = DomainId("nowhere".to_string());
    assert!(matches!(
        scheduler.decide(&request, &vec![candidate_snapshot(true)]),
        Err(anemoi::scheduler::PolicyError::UnknownDomain(d)) if d.0 == "nowhere"
    ));
    request.domain = DomainId("empty".to_string());
    assert!(matches!(
        scheduler.decide(&request, &vec![candidate_snapshot(true)]),
        Err(anemoi::scheduler::PolicyError::EmptyRoster(d)) if d.0 == "empty"
    ));
}

#[test]
fn no_available_runtime_denies_with_reason() {
    let scheduler = Scheduler::new(candidate_config());

    let decision = scheduler.decide(&candidate_request(), &vec![candidate_snapshot(false)]).expect("decision");

    assert_eq!(decision.action, DecisionAction::Deny);
    assert_eq!(decision.selected_model, None);
    assert_eq!(decision.explanation.summary, "No runnable model candidate was available.");
    assert_eq!(decision.explanation.reasons[0].code, "no_candidate");
    assert_eq!(decision.explanation.rejected_options.len(), 3);
}

fn with_cold_estimate(ms: u64) -> AnemoiConfig {
    let mut config = candidate_config();
    for (id, profile) in config.models.iter_mut() {
        if id.0 == "qwen35_a3b" {
            profile.cold_load_estimate_ms = Some(ms);
        }
    }
    config
}

#[test]
fn load_penalty_keeps_the_low_bits_of_huge_estimates() {
    let config = with_cold_estimate(3_000_000_000_000);
    let scheduler = Scheduler::new(with_cold_estimate(3_000_000_000_000));
    let request = candidate_request();
    let generated = scheduler.generate_candidates(&request, &vec![candidate_snapshot(true)]).expect("candidates");
    let cold = generated
        .candidates
        .iter()
        .find(|c| c.model_id.0 == "qwen35_a3b")
        .expect("cold candidate");
    let scored = anemoi::scheduler::score_candidate(&request, cold, &config);
    let values: Vec<(String, i32)> =
        scored.score.contributions.iter().map(|c| (c.label.clone(), c.value)).collect();
    assert_eq!(
        values,
        vec![
            ("quality".to_string(), 35),
            ("residency".to_string(), 0),
            ("load_penalty".to_string(), 1_294_967_296),
            ("latency_budget".to_string(), -1_705_032_701),
            ("memory_pressure".to_string(), 0),
            ("continuity".to_string(), 20),
        ]
    );
    assert_eq!(scored.score.total, -410_065_350);
}

#[test]
fn try_decide_refuses_a_penalty_that_cannot_be_negated() {
    let scheduler = Scheduler::new(with_cold_estimate(2_147_483_648_000));
    let outcome = scheduler.try_decide(&candidate_request(), &vec![candidate_snapshot(true)]);
    assert!(outcome.is_none());
}

#[test]
fn try_decide_decides_as_decide_does() {
    let scheduler = Scheduler::new(candidate_config());
    let request = candidate_request();
    let tried = scheduler
        .try_decide(&request, &vec![candidate_snapshot(true)])
        .expect("fits")
        .expect("decision");
    let decided = scheduler.decide(&request, &vec![candidate_snapshot(true)]).expect("decision");
    assert_eq!(tried.action, decided.action);
    assert_eq!(tried.selected_model, decided.selected_model);
    assert_eq!(tried.background_model, decided.background_model);
    assert_eq!(tried.score, decided.score);
    assert_eq!(tried.explanation.reasons, decided.explanation.reasons);
}

#[test]
fn live_config_uses_environment_for_auth() {
    let config = config_from_yaml(
        r#"
domains:
  coding:
    rosters: [small_swarm]
residency_groups:
  small_swarm:
    models: [qwen9b]
models:
  qwen9b:
    family: qwen
    parameter_class: 9b
    supported_runtimes: [llama_swap]
runtimes:
  llama_swap:
    adapter: llama_swap
    base_url: http://127.0.0.1:8085
    auth_token: "${ANEMOI_LLAMA_SWAP_AUTH_TOKEN}"
"#,
    );

    let diagnostics = anemoi::config::validate_config(&config);

    assert_eq!(diagnostics, Vec::new());
    assert_eq!(
        config.find_runtime("llama_swap").expect("runtime").auth_token,
        Some("${ANEMOI_LLAMA_SWAP_AUTH_TOKEN}".to_string())
    );
}

fn live_llama_swap_config() -> AnemoiConfig {
    config_from_yaml(
        r#"
domains:
  coding:
    rosters: [small_swarm, large_models]
residency_groups:
  small_swarm:
    purpose: [interactive coding continuity]
    keep_hot: true
    allow_background_load: true
    models: [qwen9b]
  large_models:
    purpose: [higher quality coding synthesis]
    keep_hot: false
    allow_background_load: true
    models: [qwen35_a3b]
models:
  qwen9b:
    family: qwen
    parameter_class: 9b
    context_window: 32768
    vram_required_mb: 9000
    ram_required_mb: 12000
    cold_load_estimate_ms: 18000
    supported_runtimes: [llama_swap]
  qwen35_a3b:
    family: qwen
    parameter_class: 35b
    context_window: 32768
    vram_required_mb: 30000
    ram_required_mb: 45000
    cold_load_estimate_ms: 45000
    supported_runtimes: [llama_swap]
runtimes:
  llama_swap:
    adapter: llama_swap
    base_url: http://127.0.0.1:8085
continuity:
  keep_small_worker_hot: true
  background_load: true
  max_blank_wait_ms: 1500
  prefer_degraded_response_over_silence: true
"#,
    )
}

#[test]
fn live_config_keeps_small_worker_and_large_target_in_distinct_groups() {
    let config = live_llama_swap_config();

    let small_group = config.find_group("small_swarm").expect("small_swarm group");
    let large_group = config.find_group("large_models").expect("large_models group");

    assert_eq!(small_group.models, vec![ModelId("qwen9b".to_string())]);
    assert_eq!(large_group.models, vec![ModelId("qwen35_a3b".to_string())]);
    assert!(small_group.keep_hot);
    assert!(!large_group.keep_hot);
}

#[test]
fn live_llama_swap_config_validates_cleanly() {
    assert_eq!(anemoi::config::validate_config(&live_llama_swap_config()), Vec::new());
}

#[test]
fn schedulers_with_equal_configurations_generate_equal_candidates() {
    let request = candidate_request();
    let snapshots = vec![candidate_snapshot(true)];

    let first = Scheduler::new(candidate_config()).generate_candidates(&request, &snapshots);
    let second = Scheduler::new(candidate_config()).generate_candidates(&request, &snapshots);

    assert_eq!(first, second);
    assert!(first.is_ok());
}
