use anemoi::config::{
    validate_config, AnemoiConfig, ConfigDiagnostic, ContinuityConfig, DiagnosticSeverity, DomainConfig,
    ModelProfileConfig, ResidencyGroupConfig, RuntimeConfig, RuntimeResidentConfig,
};
use anemoi::control::{
    action_plan_loads, adapter_for, adapter_with_residents, eviction_unloads, execute_handoff,
    execute_load_target, finish_execute, generate_action_plan, group_protection, plan_execute, plan_evictions_for, runtime_adapter_type,
    runtime_forward_target, stage_for_decision, staging_runnable, AdapterChoice,
};
use anemoi::model::{
    ActionKind, ActiveExecution, Decision, DecisionAction, DecisionReason, DecisionScore, DomainId,
    Explanation, ModelId, ModelResident, RequestId, ResidencyGroupId, ResidencyState, RuntimeId,
    RuntimeMemorySnapshot, RuntimeSnapshot,
};
use anemoi::reconcile::{stale_by_age, ReconciledSnapshot, Reconciler};
use anemoi::runtime::ForwardTarget;
use anemoi::staging::{StagingIntent, StagingState, StagingSummary, StagingWorker};
use anemoi::status::{active_total_fits, operator_status, try_operator_status};

fn m(id: &str) -> ModelId {
    ModelId(id.to_string())
}

fn rt(id: &str) -> RuntimeId {
    RuntimeId(id.to_string())
}

fn profile(runtimes: &[&str], cold_ms: Option<u64>) -> ModelProfileConfig {
    ModelProfileConfig {
        family: "qwen".to_string(),
        parameter_class: "9b".to_string(),
        context_window: None,
        vram_required_mb: None,
        ram_required_mb: None,
        cold_load_estimate_ms: cold_ms,
        supported_runtimes: runtimes.iter().map(|r| rt(r)).collect(),
        supports_streaming: None,
    }
}

fn group(models: &[&str], keep_hot: bool, pinned: bool) -> ResidencyGroupConfig {
    ResidencyGroupConfig {
        purpose: vec![],
        models: models.iter().map(|x| m(x)).collect(),
        keep_hot,
        allow_background_load: true,
        pinned,
    }
}

fn runtime(adapter: &str, base_url: Option<&str>, token: Option<&str>) -> RuntimeConfig {
    RuntimeConfig {
        adapter: adapter.to_string(),
        base_url: base_url.map(|s| s.to_string()),
        auth_token: token.map(|s| s.to_string()),
        initial_residents: vec![],
    }
}

/// Two runtimes (a mock and a live llama-swap), a keep-hot small group and
/// a pinned large group.
fn config() -> AnemoiConfig {
    AnemoiConfig {
        domains: vec![
            (DomainId("general".to_string()), DomainConfig { rosters: vec![ResidencyGroupId("small_swarm".to_string())] }),
            (
                DomainId("coding".to_string()),
                DomainConfig {
                    rosters: vec![ResidencyGroupId("small_swarm".to_string()), ResidencyGroupId("large_models".to_string())],
                },
            ),
        ],
        residency_groups: vec![
            (ResidencyGroupId("small_swarm".to_string()), group(&["qwen9b", "granite8b"], true, false)),
            (ResidencyGroupId("large_models".to_string()), group(&["qwen35_a3b"], false, true)),
        ],
        models: vec![
            (m("qwen9b"), profile(&["mock"], Some(18000))),
            (m("granite8b"), profile(&["mock"], None)),
            (m("qwen35_a3b"), profile(&["mock", "llama_swap"], Some(45000))),
        ],
        runtimes: vec![
            (
                rt("mock"),
                RuntimeConfig {
                    adapter: "mock".to_string(),
                    base_url: None,
                    auth_token: None,
                    initial_residents: vec![RuntimeResidentConfig {
                        model_id: m("qwen9b"),
                        state: ResidencyState::HotGpu,
                        vram_mb: Some(9000),
                        ram_mb: None,
                        kv_cache_mb: None,
                    }],
                },
            ),
            (rt("llama_swap"), runtime("llama_swap", Some("http://127.0.0.1:8085"), Some("secret"))),
        ],
        continuity: ContinuityConfig::default(),
    }
}

fn decision(action: DecisionAction, model: Option<&str>, runtime: Option<&str>, background: Option<&str>) -> Decision {
    Decision {
        id: 0x1234_5678_9abc_def0_1234_5678_9abc_def0,
        request_id: RequestId("req".to_string()),
        action,
        selected_model: model.map(m),
        selected_runtime: runtime.map(rt),
        selected_group: None,
        background_model: background.map(m),
        score: DecisionScore { total: 0, contributions: vec![] },
        explanation: Explanation {
            summary: "Selected qwen9b via mock".to_string(),
            reasons: vec![
                DecisionReason { code: "residency".to_string(), detail: "qwen9b is hot".to_string(), impact: 60 },
                DecisionReason { code: "quality".to_string(), detail: "quality score 90".to_string(), impact: 9 },
            ],
            rejected_options: vec![],
        },
        created_at: 0,
    }
}

fn snapshot(runtime: &str, residents: Vec<ModelResident>, active: Vec<&str>) -> RuntimeSnapshot {
    RuntimeSnapshot {
        runtime_id: rt(runtime),
        available: true,
        residents,
        configured_models: vec![],
        memory: RuntimeMemorySnapshot::default(),
        active_requests: active
            .into_iter()
            .map(|x| ActiveExecution { request_id: RequestId("r".to_string()), model_id: m(x), started_at: 0 })
            .collect(),
    }
}

fn resident(id: &str, state: ResidencyState, loaded_since: Option<i64>) -> ModelResident {
    ModelResident { model_id: m(id), state, vram_mb: None, ram_mb: None, kv_cache_mb: None, loaded_since }
}

#[test]
fn example_config_has_no_diagnostics() {
    assert_eq!(validate_config(&config()), Vec::new());
    assert!(config().validate().is_ok());
}

#[test]
fn reports_all_config_diagnostics_deterministically() {
    let mut config = config();
    config.domains[1].1.rosters.push(ResidencyGroupId("missing_group".to_string()));
    config.residency_groups[0].1.models.push(m("missing_model"));
    config.models[0].1.supported_runtimes.push(rt("missing_runtime"));
    config.runtimes[0].1.adapter = "mystery".to_string();

    let first = validate_config(&config);
    let second = validate_config(&config);

    assert_eq!(first, second);
    assert_eq!(
        first,
        vec![
            ConfigDiagnostic::error(
                "domains.coding.rosters[2]".to_string(),
                "unknown residency group 'missing_group'".to_string()
            ),
            ConfigDiagnostic::error(
                "models.qwen9b.supported_runtimes[1]".to_string(),
                "unknown runtime 'missing_runtime'".to_string()
            ),
            ConfigDiagnostic::error(
                "residency_groups.small_swarm.models[2]".to_string(),
                "unknown model 'missing_model'".to_string()
            ),
            ConfigDiagnostic::error("runtimes.mock.adapter".to_string(), "unknown runtime adapter 'mystery'".to_string()),
        ]
    );
    assert_eq!(config.validate().unwrap_err().diagnostics, first);
}

#[test]
fn live_config_rejects_missing_required_runtime_url_when_no_default_exists() {
    let mut config = config();
    config.runtimes[1].1.base_url = None;

    assert_eq!(
        validate_config(&config),
        vec![ConfigDiagnostic::error(
            "runtimes.llama_swap.base_url".to_string(),
            "runtime adapter 'llama_swap' requires a base_url".to_string()
        )]
    );
}

#[test]
fn empty_roster_and_group_are_reported() {
    let mut config = config();
    config.domains[0].1.rosters.clear();
    config.residency_groups[1].1.models.clear();
    let diagnostics = validate_config(&config);

    assert_eq!(diagnostics.len(), 2);
    assert_eq!(diagnostics[0].path, "domains.general.rosters");
    assert_eq!(diagnostics[0].message, "domain must reference at least one residency group");
    assert_eq!(diagnostics[0].severity, DiagnosticSeverity::Error);
    assert_eq!(diagnostics[1].path, "residency_groups.large_models.models");
}

#[test]
fn reuse_hot_action_plan_contains_no_mutating_action() {
    let plan = generate_action_plan(&config(), &decision(DecisionAction::ReuseHot, Some("qwen9b"), Some("mock"), None), true);

    assert_eq!(plan.actions.len(), 1);
    assert_eq!(plan.actions[0].kind, ActionKind::NoOp);
    assert_eq!(plan.actions[0].reason, "Reuse hot model - no action needed");
    assert_eq!(plan.actions[0].runtime_id, rt("mock"));
    assert!(!plan.has_mutating_actions());
    assert!(plan.dry_run);
}

#[test]
fn decision_action_plan_contains_foreground_load_when_required() {
    let plan = generate_action_plan(&config(), &decision(DecisionAction::ColdLoad, Some("qwen9b"), Some("mock"), None), false);

    let load = plan.get_foreground_load().expect("foreground load");
    assert_eq!(load.model_id, Some(m("qwen9b")));
    assert_eq!(load.reason, "Cold load required model");
    assert_eq!(load.expected_cost_ms, Some(18000));
    assert!(plan.has_mutating_actions());
}

#[test]
fn stage_background_action_plan_contains_background_load_intent() {
    let plan = generate_action_plan(
        &config(),
        &decision(DecisionAction::StageBackground, Some("qwen9b"), Some("mock"), Some("qwen35_a3b")),
        true,
    );

    assert!(plan.get_foreground_load().is_none());
    let load = plan.get_background_load().expect("background load");
    assert_eq!(load.model_id, Some(m("qwen35_a3b")));
    assert_eq!(load.expected_cost_ms, Some(45000));
    assert_eq!(load.reason, "Background staging load");
}

#[test]
fn deny_and_unselected_plans_are_inert() {
    let deny = generate_action_plan(&config(), &decision(DecisionAction::Deny, None, None, None), true);
    assert_eq!(deny.actions.len(), 1);
    assert_eq!(deny.actions[0].reason, "Deny - no action");
    assert_eq!(deny.actions[0].runtime_id, rt("none"));
    let reuse = generate_action_plan(&config(), &decision(DecisionAction::ReuseHot, None, None, None), true);
    assert_eq!(reuse.actions[0].runtime_id, rt("unknown"));
    let warm = generate_action_plan(&config(), &decision(DecisionAction::PromoteWarm, Some("qwen9b"), None, None), true);
    assert!(warm.actions.is_empty());
}

#[test]
fn group_protection_combines_every_group_of_a_model() {
    let mut config = config();
    config.residency_groups[1].1.models.push(m("qwen9b"));

    assert_eq!(group_protection(&config, &m("qwen9b")), (true, true));
    assert_eq!(group_protection(&config, &m("granite8b")), (true, false));
    assert_eq!(group_protection(&config, &m("qwen35_a3b")), (false, true));
    assert_eq!(group_protection(&config, &m("other")), (false, false));
}

#[test]
fn eviction_plan_over_snapshots_respects_groups_and_serving() {
    let now = 10_000_000;
    let snapshots = vec![
        snapshot(
            "mock",
            vec![
                resident("qwen9b", ResidencyState::HotGpu, Some(now - 60_000)),
                resident("free", ResidencyState::HotGpu, Some(now - 120_500)),
                resident("busy", ResidencyState::HotGpu, None),
            ],
            vec!["busy"],
        ),
        snapshot("llama_swap", vec![resident("qwen35_a3b", ResidencyState::HotGpu, None)], vec![]),
    ];

    let plan = plan_evictions_for(&config(), &snapshots, false, now);

    assert_eq!(plan.candidates.len(), 1);
    assert_eq!(plan.candidates[0].model_id, m("free"));
    assert_eq!(plan.candidates[0].idle_secs, Some(120));
    assert_eq!(plan.protected.len(), 2);
    assert_eq!(plan.blocked.len(), 1);
    assert_eq!(plan.blocked[0].model_id, m("busy"));
}

#[test]
fn runtime_lookups_follow_the_configuration() {
    let config = config();

    assert_eq!(runtime_adapter_type(&config, "mock"), Some("mock"));
    assert_eq!(runtime_adapter_type(&config, "nope"), None);
    assert_eq!(runtime_forward_target(&config, "mock"), None);
    assert_eq!(
        runtime_forward_target(&config, "llama_swap"),
        Some(ForwardTarget { base_url: "http://127.0.0.1:8085".to_string(), auth_token: Some("secret".to_string()) })
    );
}

#[test]
fn adapters_are_chosen_by_configured_name() {
    let config = config();
    match adapter_for(&config.runtimes[0].1) {
        AdapterChoice::Mock { residents } => {
            assert_eq!(residents, vec![ModelResident {
                model_id: m("qwen9b"),
                state: ResidencyState::HotGpu,
                vram_mb: Some(9000),
                ram_mb: None,
                kv_cache_mb: None,
                loaded_since: None,
            }]);
        },
        other => panic!("expected mock, got {other:?}"),
    }
    assert_eq!(
        adapter_for(&runtime("ollama", None, None)),
        AdapterChoice::Ollama { base_url: "http://localhost:11434".to_string() }
    );
    assert_eq!(
        adapter_for(&config.runtimes[1].1),
        AdapterChoice::LlamaSwap { base_url: "http://127.0.0.1:8085".to_string(), auth_token: Some("secret".to_string()) }
    );
    assert_eq!(
        adapter_for(&runtime("llama_server", None, None)),
        AdapterChoice::LlamaCpp { base_url: "http://localhost:8080".to_string(), auth_token: None }
    );
    assert_eq!(adapter_for(&runtime("mystery", None, None)), AdapterChoice::Mock { residents: vec![] });
    let given = vec![("llama_swap".to_string(), vec![resident("a", ResidencyState::WarmCpu, None)])];
    assert_eq!(
        adapter_with_residents("llama_swap", &config.runtimes[1].1, &given),
        AdapterChoice::Mock { residents: vec![resident("a", ResidencyState::WarmCpu, None)] }
    );
    assert_eq!(
        adapter_with_residents("ollama", &runtime("ollama", Some("http://x:1"), None), &given),
        AdapterChoice::Ollama { base_url: "http://x:1".to_string() }
    );
}

#[test]
fn stage_background_decision_enqueues_staging_intent() {
    let mut worker = StagingWorker::new();
    let d = decision(DecisionAction::StageBackground, Some("qwen9b"), Some("mock"), Some("qwen35_a3b"));

    stage_for_decision(&mut worker, &d);
    stage_for_decision(&mut worker, &decision(DecisionAction::ReuseHot, Some("qwen9b"), Some("mock"), None));

    let intents = worker.get_all();
    assert_eq!(intents.len(), 1);
    assert_eq!(intents[0].decision_id, d.id);
    assert_eq!(intents[0].foreground_model, Some(m("qwen9b")));
    assert_eq!(intents[0].background_model, m("qwen35_a3b"));
    assert_eq!(intents[0].target_runtime, rt("mock"));
    assert_eq!(intents[0].reason, "Selected qwen9b via mock");
    assert_eq!(intents[0].state, StagingState::Pending);
    assert_eq!(worker.get_pending().len(), 1);
}

#[test]
fn staging_status_reports_pending_blocked_failed_and_completed() {
    let mut worker = StagingWorker::default();
    worker.enqueue(StagingIntent::new(1, None, m("a"), rt("mock"), "r".to_string()));
    worker.unblock_and_queue(2, None, m("b"), rt("mock"), "r".to_string());
    worker.unblock_and_queue(3, None, m("c"), rt("mock"), "r".to_string());
    worker.unblock_and_queue(4, None, m("d"), rt("mock"), "r".to_string());
    let all = worker.get_all();
    worker.update_state(all[2].id, StagingState::Failed, Some("boom".to_string()));
    worker.update_state(all[3].id, StagingState::Completed, None);
    worker.update_state(12345, StagingState::Failed, None);

    let summary = StagingSummary::from_intents(&worker.get_all());

    assert_eq!(summary, StagingSummary { total: 4, blocked: 1, pending: 1, failed: 1, completed: 1 });
    assert_eq!(worker.get_all()[2].last_error, Some("boom".to_string()));
    assert!(worker.get_all()[2].state.is_terminal());
    assert!(!StagingState::Pending.is_terminal());
}

#[test]
fn staging_tick_skips_non_mock_runtime_without_live_execution_flag() {
    let mut worker = StagingWorker::new();
    worker.unblock_and_queue(1, None, m("a"), rt("mock"), "r".to_string());
    worker.unblock_and_queue(2, None, m("b"), rt("llama_swap"), "r".to_string());
    worker.unblock_and_queue(3, None, m("c"), rt("unknown"), "r".to_string());
    let pending = worker.get_pending();

    let runnable = staging_runnable(&config(), &pending, false);
    assert_eq!(runnable.len(), 1);
    assert_eq!(runnable[0].background_model, m("a"));
    assert_eq!(staging_runnable(&config(), &pending, true).len(), 3);
}

#[test]
fn live_action_plan_execution_requires_explicit_enable_flag() {
    let config = config();
    let plan = generate_action_plan(&config, &decision(DecisionAction::ColdLoad, Some("qwen9b"), Some("mock"), None), false);

    assert_eq!(action_plan_loads(&plan, false), Err("Live execution requires ANEMOI_ENABLE_LIVE_EXECUTE=1".to_string()));
    assert_eq!(action_plan_loads(&plan, true), Ok(vec![(rt("mock"), m("qwen9b"))]));
    let dry = generate_action_plan(&config, &decision(DecisionAction::ColdLoad, Some("qwen9b"), Some("mock"), None), true);
    assert_eq!(action_plan_loads(&dry, false), Ok(vec![]));
}

#[test]
fn live_eviction_requires_explicit_enable_flag() {
    let config = config();
    let mut plan = anemoi::model::ActionPlan::new(7, false);
    plan.add_unload(rt("mock"), m("qwen9b"), "idle".to_string());
    plan.add_noop(rt("mock"), "nothing".to_string());
    plan.add_unload(rt("llama_swap"), m("qwen35_a3b"), "idle".to_string());
    plan.add_unload(rt("mock"), m("granite8b"), "idle".to_string());

    assert_eq!(eviction_unloads(&config, &plan, true, false), (vec![(rt("mock"), m("qwen9b"))], true));
    assert_eq!(eviction_unloads(&config, &plan, true, true).0.len(), 3);
    assert_eq!(eviction_unloads(&config, &plan, false, true), (vec![], false));
}

#[test]
fn execute_returns_honest_handoff_response() {
    let config = config();
    let d = decision(DecisionAction::ReuseHot, Some("qwen9b"), Some("mock"), None);

    assert_eq!(execute_load_target(&config, &d, true), None);
    assert_eq!(execute_load_target(&config, &d, false), Some((rt("mock"), m("qwen9b"))));
    assert_eq!(execute_load_target(&config, &decision(DecisionAction::ColdLoad, Some("qwen35_a3b"), Some("llama_swap"), None), false), None);
    let handoff = execute_handoff(true, false);
    assert!(!handoff.full_inference_forwarded);
    assert!(!handoff.load_requested);
    assert_eq!(handoff.message, "v1 execute performs dry-run action plan and model-load handoff only");
    assert_eq!(execute_handoff(false, true).message, "v1 execute performs decision logging and model-load handoff only");
}

#[test]
fn reconciliation_loop_updates_snapshot_cache_from_runtime_inspect() {
    let mut reconciler = Reconciler::default();
    assert!(!reconciler.has_cache());

    reconciler.update_at("mock", snapshot("mock", vec![resident("qwen9b", ResidencyState::HotGpu, None)], vec![]), 1_000);

    assert!(reconciler.has_cache());
    let fresh = reconciler.get_at("mock", 1_000 + 5_000).expect("entry");
    assert!(!fresh.is_stale);
    assert_eq!(fresh.last_inspected, 1_000);
    assert_eq!(fresh.snapshot.residents.len(), 1);
    assert_eq!(reconciler.get_snapshots().len(), 1);
    assert!(reconciler.get_at("other", 1_000).is_none());
}

#[test]
fn reconciliation_loop_marks_snapshot_stale_after_ttl() {
    let mut reconciler = Reconciler::new(5_000);
    reconciler.update_at("mock", snapshot("mock", vec![], vec![]), 1_000);

    assert!(reconciler.get_at("mock", 1_000 + 5_001).expect("entry").is_stale);
    reconciler.mark_stale();
    assert!(reconciler.get_at("mock", 1_000).expect("entry").is_stale);
    assert!(reconciler.all_at(1_000).iter().all(|r| r.is_stale));
}

#[test]
fn reconciliation_loop_records_runtime_inspection_error_without_panicking() {
    let mut reconciler = Reconciler::default();
    reconciler.update_at("mock", snapshot("mock", vec![], vec![]), 1_000);
    reconciler.record_error("mock", "connection refused".to_string());

    let entry = reconciler.get_at("mock", 1_000).expect("entry");
    assert!(entry.is_stale);
    assert!(!entry.snapshot.available);
    assert_eq!(entry.last_error, Some("connection refused".to_string()));
    assert_eq!(reconciler.all_at(0).len(), 1);
}

#[test]
fn staleness_compares_age_with_the_ttl() {
    assert!(!stale_by_age(1_000, 6_000, 5_000));
    assert!(stale_by_age(1_000, 6_001, 5_000));
    assert!(stale_by_age(0, 0, u64::MAX));
    let fresh = ReconciledSnapshot::fresh(snapshot("mock", vec![], vec![]));
    assert!(!fresh.is_stale);
    assert!(ReconciledSnapshot::stale(snapshot("mock", vec![], vec![]), None).is_stale);
}

#[test]
fn status_summary_includes_runtime_availability_and_staleness() {
    let config = config();
    let mut reconciler = Reconciler::default();
    reconciler.update_at(
        "mock",
        snapshot("mock", vec![resident("qwen9b", ResidencyState::HotGpu, Some(1_000)), resident("x", ResidencyState::WarmCpu, None)], vec!["qwen9b", "x"]),
        1_000,
    );
    let reconciled = reconciler.all_at(100_000);
    let mut worker = StagingWorker::new();
    worker.unblock_and_queue(1, None, m("a"), rt("mock"), "r".to_string());

    let status = operator_status(&config, &reconciled, &worker.get_all(), 3, false, 100_000);

    assert!(status.cache_populated);
    assert_eq!(status.runtimes.len(), 2);
    assert_eq!(status.runtimes[0].runtime_id, "llama_swap");
    assert_eq!(status.runtimes[0].availability, "unknown");
    assert_eq!(status.runtimes[0].freshness, "unknown");
    assert_eq!(status.runtimes[0].adapter, "llama_swap");
    assert_eq!(status.runtimes[1].runtime_id, "mock");
    assert_eq!(status.runtimes[1].availability, "available");
    assert_eq!(status.runtimes[1].freshness, "stale");
    assert_eq!(status.runtimes[1].last_inspected, Some(1_000));
    assert_eq!(status.runtimes[1].residents[0].idle_secs, Some(99));
    assert_eq!(status.runtimes[1].residents[1].idle_secs, None);
    assert_eq!(status.active_request_count, 2);
    assert_eq!(status.recent_decision_count, 3);
    assert_eq!(status.staging.pending, 1);
    assert!(!status.live_execution_enabled);
}

#[test]
fn status_summary_includes_residency_group_health() {
    let config = config();
    let empty = operator_status(&config, &vec![], &[], 0, true, 0);
    assert!(!empty.cache_populated);
    assert!(empty.residency_groups.iter().all(|g| g.health == "unknown"));
    assert!(empty.policy_warnings.is_empty());

    let mut reconciler = Reconciler::default();
    reconciler.update_at("mock", snapshot("mock", vec![resident("qwen35_a3b", ResidencyState::HotGpu, None)], vec![]), 0);
    let status = operator_status(&config, &reconciler.all_at(0), &[], 0, true, 0);

    assert_eq!(status.residency_groups[0].group_id, "large_models");
    assert_eq!(status.residency_groups[0].health, "healthy");
    assert_eq!(status.residency_groups[0].hot_resident_count, 1);
    assert!(status.residency_groups[0].pinned);
    assert_eq!(status.residency_groups[1].group_id, "small_swarm");
    assert_eq!(status.residency_groups[1].health, "degraded");
    assert_eq!(status.residency_groups[1].member_count, 2);
    assert_eq!(status.policy_warnings, vec!["keep-hot group 'small_swarm' has no hot residents".to_string()]);
}

#[test]
fn validation_error_message_lists_each_diagnostic() {
    let error = anemoi::config::ConfigValidationError {
        diagnostics: vec![
            ConfigDiagnostic::error("domains.coding.rosters".to_string(), "domain must reference at least one residency group".to_string()),
            ConfigDiagnostic::error("runtimes.mock.adapter".to_string(), "unknown runtime adapter 'mystery'".to_string()),
        ],
    };

    assert_eq!(
        error.message(),
        "invalid Anemoi config\n- Error domains.coding.rosters: domain must reference at least one residency group\n- Error runtimes.mock.adapter: unknown runtime adapter 'mystery'"
    );
}

/// The example configuration: a general and a coding domain over a keep-hot
/// small worker group and a pinned large model group, a mock runtime with a
/// hot resident and a llama-swap runtime.
fn example_config() -> AnemoiConfig {
    config()
}

fn find_group_mut<'a>(config: &'a mut AnemoiConfig, id: &str) -> &'a mut ResidencyGroupConfig {
    &mut config.residency_groups.iter_mut().find(|(g, _)| g.0 == id).expect("group").1
}

fn find_domain_mut<'a>(config: &'a mut AnemoiConfig, id: &str) -> &'a mut DomainConfig {
    &mut config.domains.iter_mut().find(|(d, _)| d.0 == id).expect("domain").1
}

fn find_runtime_mut<'a>(config: &'a mut AnemoiConfig, id: &str) -> &'a mut RuntimeConfig {
    &mut config.runtimes.iter_mut().find(|(r, _)| r.0 == id).expect("runtime").1
}

#[test]
fn accepts_example_config() {
    let config = example_config();

    let diagnostics = validate_config(&config);

    assert_eq!(diagnostics, Vec::new());
}

#[test]
fn rejects_domain_roster_referencing_unknown_group() {
    let mut config = example_config();
    find_domain_mut(&mut config, "coding").rosters.push(ResidencyGroupId("missing_group".to_string()));

    let diagnostics = validate_config(&config);

    assert_eq!(
        diagnostics,
        vec![ConfigDiagnostic::error(
            "domains.coding.rosters[2]".to_string(),
            "unknown residency group 'missing_group'".to_string(),
        )]
    );
}

#[test]
fn rejects_group_referencing_unknown_model() {
    let mut config = example_config();
    find_group_mut(&mut config, "small_swarm").models.push(ModelId("missing_model".to_string()));

    let diagnostics = validate_config(&config);

    assert_eq!(
        diagnostics,
        vec![ConfigDiagnostic::error(
            "residency_groups.small_swarm.models[2]".to_string(),
            "unknown model 'missing_model'".to_string(),
        )]
    );
}

#[test]
fn rejects_model_referencing_unknown_runtime() {
    let mut config = example_config();
    config
        .models
        .iter_mut()
        .find(|(id, _)| id.0 == "qwen9b")
        .expect("qwen9b model")
        .1
        .supported_runtimes
        .push(RuntimeId("missing_runtime".to_string()));

    let diagnostics = validate_config(&config);

    assert_eq!(
        diagnostics,
        vec![ConfigDiagnostic::error(
            "models.qwen9b.supported_runtimes[1]".to_string(),
            "unknown runtime 'missing_runtime'".to_string(),
        )]
    );
}

#[test]
fn rejects_runtime_with_unknown_adapter() {
    let mut config = example_config();
    find_runtime_mut(&mut config, "mock").adapter = "mystery".to_string();

    let diagnostics = validate_config(&config);

    assert_eq!(
        diagnostics,
        vec![ConfigDiagnostic::error(
            "runtimes.mock.adapter".to_string(),
            "unknown runtime adapter 'mystery'".to_string(),
        )]
    );
}

#[test]
fn rejects_runtime_initial_resident_referencing_unknown_model() {
    let mut config = example_config();
    find_runtime_mut(&mut config, "mock").initial_residents.push(RuntimeResidentConfig {
        model_id: ModelId("missing_model".to_string()),
        state: ResidencyState::HotGpu,
        vram_mb: None,
        ram_mb: None,
        kv_cache_mb: None,
    });

    let diagnostics = validate_config(&config);

    assert_eq!(
        diagnostics,
        vec![ConfigDiagnostic::error(
            "runtimes.mock.initial_residents[1].model_id".to_string(),
            "unknown model 'missing_model'".to_string(),
        )]
    );
}

#[test]
fn rejects_empty_domain_roster() {
    let mut config = example_config();
    find_domain_mut(&mut config, "coding").rosters.clear();

    let diagnostics = validate_config(&config);

    assert_eq!(
        diagnostics,
        vec![ConfigDiagnostic::error(
            "domains.coding.rosters".to_string(),
            "domain must reference at least one residency group".to_string(),
        )]
    );
}

#[test]
fn rejects_empty_residency_group_models() {
    let mut config = example_config();
    find_group_mut(&mut config, "small_swarm").models.clear();

    let diagnostics = validate_config(&config);

    assert_eq!(
        diagnostics,
        vec![ConfigDiagnostic::error(
            "residency_groups.small_swarm.models".to_string(),
            "residency group must reference at least one model".to_string(),
        )]
    );
}

#[test]
fn reconciler_keeps_one_entry_per_runtime() {
    let mut reconciler = Reconciler::new(5_000);
    reconciler.update_at("mock", snapshot("mock", vec![], vec![]), 1_000);
    reconciler.update_at("other", snapshot("other", vec![], vec![]), 1_500);
    reconciler.update_at("mock", snapshot("mock", vec![], vec![]), 2_000);
    reconciler.record_error("other", "timeout".to_string());
    reconciler.mark_stale();

    let all = reconciler.all_at(2_000);
    assert_eq!(all.len(), 2);
    assert_eq!(all[0].snapshot.runtime_id.0, "mock");
    assert_eq!(all[0].last_inspected, 2_000);
    assert_eq!(all[1].snapshot.runtime_id.0, "other");
}

#[test]
fn execute_without_live_execution_plans_a_dry_run_and_loads_nothing() {
    let config = config();
    let d = decision(DecisionAction::ColdLoad, Some("qwen9b"), Some("mock"), None);

    let dry = plan_execute(&config, &d, false);
    assert!(dry.dry_run);
    assert!(dry.action_plan.dry_run);
    assert_eq!(dry.action_plan, generate_action_plan(&config, &d, true));
    assert_eq!(dry.load, None);
    let handoff = finish_execute(&dry, true);
    assert!(!handoff.load_requested);
    assert!(!handoff.full_inference_forwarded);
    assert_eq!(handoff.message, "v1 execute performs dry-run action plan and model-load handoff only");

    let live = plan_execute(&config, &d, true);
    assert!(!live.dry_run);
    assert_eq!(live.load, Some((rt("mock"), m("qwen9b"))));
    assert!(finish_execute(&live, true).load_requested);
    assert!(!finish_execute(&live, false).load_requested);
    assert_eq!(finish_execute(&live, true).message, "v1 execute performs decision logging and model-load handoff only");
}

#[test]
fn try_operator_status_matches_operator_status_when_counts_fit() {
    let config = config();
    let mut reconciler = Reconciler::default();
    reconciler.update_at("mock", snapshot("mock", vec![resident("qwen9b", ResidencyState::HotGpu, None)], vec![]), 0);
    let reconciled = reconciler.all_at(0);

    assert!(active_total_fits(&config, &reconciled));
    assert_eq!(
        try_operator_status(&config, &reconciled, &[], 2, false, 0),
        Some(operator_status(&config, &reconciled, &[], 2, false, 0))
    );
}

#[test]
fn configuration_ids_are_unique_unless_repeated() {
    let mut config = example_config();
    assert!(config.has_unique_keys());

    let again = config.domains[0].0.clone();
    config.domains.push((again, DomainConfig { rosters: vec![] }));
    assert!(!config.has_unique_keys());
}
