use anemoi::pressure::{active_request_impact, active_requests_reason, measured_pressure_reason, pressure_impact, projected_usage_mb, unknown_capacity_reason};
use anemoi::clock::uuid_text;
use anemoi::env_expand::expand_env_vars;
use anemoi::guard::{
    check_fns, is_allowed, is_weak_condition, line_contains_marker, AttrSummary, FnSummary, MacroSummary, Rule,
};
use anemoi::mcp::{mcp_status, mcp_tools, ToolDescriptor};
use anemoi::model::{
    Decision, DecisionAction, DecisionReason, DecisionScore, Explanation, ModelId, RequestId, ResidencyState,
    RuntimeId,
};
use anemoi::report::{format_decision, format_policy_check, format_residency_state, format_status};
use anemoi::staging::StagingSummary;
use anemoi::status::{GroupHealth, OperatorStatus, ResidentStatus, RuntimeStatus};
use anemoi::telemetry::{decision_log_choice, sqlite_path_from_url, DecisionLogChoice, InMemoryDecisionLog};

fn decision(id: u128, summary: &str) -> Decision {
    Decision {
        id,
        request_id: RequestId("req".to_string()),
        action: DecisionAction::StageBackground,
        selected_model: Some(ModelId("qwen9b".to_string())),
        selected_runtime: Some(RuntimeId("mock".to_string())),
        selected_group: None,
        background_model: Some(ModelId("qwen35_a3b".to_string())),
        score: DecisionScore { total: 10, contributions: vec![] },
        explanation: Explanation {
            summary: summary.to_string(),
            reasons: vec![
                DecisionReason { code: "a".to_string(), detail: "first reason".to_string(), impact: 1 },
                DecisionReason { code: "b".to_string(), detail: "second reason".to_string(), impact: 2 },
            ],
            rejected_options: vec![],
        },
        created_at: 0,
    }
}

#[test]
fn memory_decision_log_stores_and_gets_decision() {
    let mut log = InMemoryDecisionLog::new();
    let d = decision(7, "first");

    log.record_decision(&d);

    assert_eq!(log.get_decision(7), Some(d));
}

#[test]
fn memory_decision_log_returns_none_for_unknown_decision() {
    let log = InMemoryDecisionLog::default();
    assert_eq!(log.get_decision(99), None);
}

#[test]
fn memory_decision_log_keeps_recent_decisions_in_insert_order() {
    let mut log = InMemoryDecisionLog::new();
    log.record_decision(&decision(3, "a"));
    log.record_decision(&decision(1, "b"));
    log.record_decision(&decision(3, "c"));

    let listed = log.list_decisions();
    assert_eq!(listed.iter().map(|d| d.id).collect::<Vec<_>>(), vec![3, 1]);
    assert_eq!(listed[0].explanation.summary, "c");
}

#[test]
fn sqlite_urls_name_file_paths() {
    assert_eq!(sqlite_path_from_url("sqlite:///var/lib/x.db"), Some("/var/lib/x.db".to_string()));
    assert_eq!(sqlite_path_from_url("sqlite:///C:/x.db"), Some("C:/x.db".to_string()));
    assert_eq!(sqlite_path_from_url("sqlite://relative.db"), Some("relative.db".to_string()));
    assert_eq!(sqlite_path_from_url("postgres://db"), None);
}

#[test]
fn decision_log_defaults_to_memory() {
    assert_eq!(decision_log_choice(None, None), Ok(DecisionLogChoice::InMemory));
    assert_eq!(decision_log_choice(None, Some("log.jsonl".to_string())), Ok(DecisionLogChoice::Jsonl("log.jsonl".to_string())));
    assert_eq!(
        decision_log_choice(Some("sqlite:///tmp/a.db"), Some("log.jsonl".to_string())),
        Ok(DecisionLogChoice::Sqlite("/tmp/a.db".to_string()))
    );
    assert_eq!(
        decision_log_choice(Some("mysql://x"), None),
        Err("unsupported ANEMOI_DATABASE_URL: mysql://x".to_string())
    );
}

#[test]
fn mcp_lists_expected_tools() {
    let tools = mcp_tools().into_iter().map(|tool| tool.name).collect::<Vec<_>>();

    assert_eq!(tools, vec!["get_status", "list_residents", "decide", "explain_decision", "check_policy"]);
    assert_eq!(ToolDescriptor::new("x").name, "x");
}

#[test]
fn mcp_status_returns_runtime_and_policy_summary() {
    let config = anemoi::config::AnemoiConfig {
        domains: vec![],
        residency_groups: vec![],
        models: vec![],
        runtimes: vec![(
            RuntimeId("mock".to_string()),
            anemoi::config::RuntimeConfig { adapter: "mock".to_string(), base_url: None, auth_token: None, initial_residents: vec![] },
        )],
        continuity: anemoi::config::ContinuityConfig::default(),
    };

    let status = mcp_status(&config);

    assert_eq!(status.domains, 0);
    assert_eq!(status.runtimes, 1);
    assert_eq!(status.models, 0);
    assert_eq!(status.residency_groups, 0);
}

#[test]
fn environment_references_are_expanded() {
    let env = vec![("TOKEN".to_string(), "s3cret".to_string()), ("TOKEN".to_string(), "other".to_string())];

    assert_eq!(expand_env_vars("auth: \"${TOKEN}\"", &env), "auth: \"s3cret\"");
    assert_eq!(expand_env_vars("a ${MISSING} b", &env), "a ${MISSING} b");
    assert_eq!(expand_env_vars("${} ${TOKEN", &env), "${} ${TOKEN");
    assert_eq!(expand_env_vars("$${TOKEN}}", &env), "$s3cret}");
    assert_eq!(expand_env_vars("plain", &env), "plain");
}

#[test]
fn policy_check_reports_valid_config() {
    let config = anemoi::config::AnemoiConfig {
        domains: vec![],
        residency_groups: vec![],
        models: vec![],
        runtimes: vec![],
        continuity: anemoi::config::ContinuityConfig::default(),
    };
    assert_eq!(format_policy_check(&config), "Policy configuration loaded successfully.\n");
}

#[test]
fn policy_check_reports_invalid_config_diagnostics() {
    let config = anemoi::config::AnemoiConfig {
        domains: vec![],
        residency_groups: vec![],
        models: vec![],
        runtimes: vec![(
            RuntimeId("gpu".to_string()),
            anemoi::config::RuntimeConfig { adapter: "ollama".to_string(), base_url: None, auth_token: None, initial_residents: vec![] },
        )],
        continuity: anemoi::config::ContinuityConfig::default(),
    };
    assert_eq!(
        format_policy_check(&config),
        "Policy configuration has diagnostics:\n- error runtimes.gpu.base_url: runtime adapter 'ollama' requires a base_url\n"
    );
}

#[test]
fn decide_report_prints_selection_action_and_reasons() {
    let d = decision(0x0123_4567_89ab_cdef_0123_4567_89ab_cdef, "s");

    let text = format_decision(&d);

    assert_eq!(
        text,
        "Selected: qwen9b via mock\nAction: StageBackground\nDecision ID: 01234567-89ab-cdef-0123-456789abcdef\n\nReasons:\n- first reason\n- second reason\n"
    );
}

#[test]
fn residency_state_is_reported_by_wire_name() {
    assert_eq!(format_residency_state(ResidencyState::HotGpu), "hot_gpu");
    assert_eq!(format_residency_state(ResidencyState::WarmCpu), "warm_cpu");
}

#[test]
fn status_report_marks_unknown_and_stale_state_plainly() {
    let status = OperatorStatus {
        cache_populated: true,
        runtimes: vec![
            RuntimeStatus {
                runtime_id: "mock".to_string(),
                adapter: "mock".to_string(),
                availability: "available".to_string(),
                freshness: "stale".to_string(),
                last_inspected: Some(0),
                last_error: Some("timeout".to_string()),
                active_request_count: 1,
                residents: vec![
                    ResidentStatus { model_id: "qwen9b".to_string(), state: ResidencyState::HotGpu, idle_secs: None },
                    ResidentStatus { model_id: "granite8b".to_string(), state: ResidencyState::WarmCpu, idle_secs: Some(12) },
                ],
            },
            RuntimeStatus {
                runtime_id: "swap".to_string(),
                adapter: "llama_swap".to_string(),
                availability: "unknown".to_string(),
                freshness: "unknown".to_string(),
                last_inspected: None,
                last_error: None,
                active_request_count: 0,
                residents: vec![],
            },
        ],
        residency_groups: vec![GroupHealth {
            group_id: "small_swarm".to_string(),
            keep_hot: true,
            pinned: false,
            member_count: 2,
            hot_resident_count: 1,
            health: "healthy".to_string(),
        }],
        active_request_count: 1,
        staging: StagingSummary { total: 3, blocked: 0, pending: 1, failed: 1, completed: 1 },
        recent_decision_count: 4,
        policy_warnings: vec![],
        live_execution_enabled: false,
    };

    let text = format_status(&status);

    let expected = [
        "Anemoi operator status\n======================\n",
        "Live execution: disabled (ANEMOI_ENABLE_LIVE_EXECUTE not set)\n",
        "Reconciliation cache: populated\n",
        "Active requests: 1\n",
        "Recent decisions: 4\n",
        "\nRuntimes:\n",
        "  mock (mock): availability=available, freshness=stale\n",
        "    last error: timeout\n",
        "    active requests: 1\n",
        "    residents:\n",
        "      - qwen9b [hot_gpu] idle: unknown\n",
        "      - granite8b [warm_cpu] idle: 12s\n",
        "  swap (llama_swap): availability=unknown, freshness=unknown\n",
        "    active requests: 0\n",
        "    residents: none observed\n",
        "\nResidency groups:\n",
        "  small_swarm: healthy (keep-hot, 1/2 hot)\n",
        "\nStaging queue: total 3 (blocked 0, pending 1, failed 1, completed 1)\n",
        "\nPolicy warnings:\n  none\n",
    ]
    .concat();
    assert_eq!(text, expected);
}

fn attr(path: &[&str], tokens: Option<&str>) -> AttrSummary {
    AttrSummary {
        segments: path.iter().map(|s| s.to_string()).collect(),
        bare_ident: path.len() == 1,
        list_tokens: tokens.map(|t| t.to_string()),
    }
}

fn test_fn(name: &str, public: bool, start: usize, end: usize, test_attr: bool, macros: &[(&str, &str)], in_test: bool) -> FnSummary {
    FnSummary {
        name: name.to_string(),
        is_public: public,
        start_line: start,
        end_line: end,
        attrs: if test_attr { vec![attr(&["test"], None)] } else { vec![] },
        macros: macros.iter().map(|(n, t)| MacroSummary { name: n.to_string(), tokens: t.to_string() }).collect(),
        module_attrs: if in_test { vec![vec![attr(&["cfg"], Some("test"))]] } else { vec![] },
    }
}

fn lines(text: &str) -> Vec<String> {
    text.lines().map(|l| l.to_string()).collect()
}

#[test]
fn check_fns_flags_pub_fn_in_test_module() {
    let source = lines("#[cfg(test)]\nmod tests {\n    pub fn create_decision_log() -> u32 { 1 }\n}\n");
    let found = check_fns(&vec![test_fn("create_decision_log", true, 3, 3, false, &[], true)], &source);

    assert_eq!(found.len(), 1);
    assert_eq!(found[0].rule, Rule::PubFnInTestModule);
    assert_eq!(found[0].item, "create_decision_log");
    assert_eq!(found[0].line, 3);
    assert_eq!(found[0].rule.code(), "pub-fn-in-test-module");
}

#[test]
fn flags_test_that_only_checks_is_ok_and_accepts_comparisons() {
    let source = lines("mod tests {\n  #[test]\n  fn stores() {\n    assert!(result.is_ok());\n  }\n}");
    let vacuous = test_fn("stores", false, 2, 5, true, &[("assert", "result . is_ok ()")], true);
    let strong = test_fn("reads", false, 2, 5, true, &[("assert", "x . is_ok ()"), ("assert_eq", "a , b")], true);
    let refusal = test_fn("refuses", false, 2, 5, true, &[("assert", "execute () . is_err ()")], true);
    let compared = test_fn("count", false, 2, 5, true, &[("assert", "rows . len () == 1 && first . is_some ()")], true);

    let found = check_fns(&vec![vacuous, strong, refusal, compared], &source);

    assert_eq!(found.len(), 1);
    assert_eq!(found[0].rule, Rule::VacuousTest);
    assert_eq!(found[0].item, "stores");
    assert_eq!(Rule::VacuousTest.code(), "vacuous-test");
}

#[test]
fn allow_marker_suppresses_findings() {
    let source = lines("mod tests {\n    // anemoi-guard:allow vacuous-test - smoke\n    #[test]\n    fn boots() {\n        assert!(start().is_ok());\n    }\n}");

    assert!(line_contains_marker(&source, 2));
    assert!(!line_contains_marker(&source, 1));
    assert!(!line_contains_marker(&source, 40));
    assert!(is_allowed(&source, 4, 6));
    assert!(is_allowed(&source, 3, 6));
    assert!(!is_allowed(&source, 1, 1));
    let found = check_fns(&vec![test_fn("boots", true, 4, 6, true, &[("assert", "start () . is_ok ()")], true)], &source);
    assert!(found.is_empty());
}

#[test]
fn weak_conditions_probe_without_comparing() {
    assert!(is_weak_condition("result . is_ok ()"));
    assert!(is_weak_condition("lookup () . is_some ()"));
    assert!(!is_weak_condition("x . is_ok () == true"));
    assert!(!is_weak_condition("x . is_none ()"));
    assert!(!is_weak_condition("a != b"));
}

#[test]
fn uuid_text_is_lower_case_hyphenated_big_endian() {
    assert_eq!(uuid_text(0x0123456789abcdef0123456789abcdef), "01234567-89ab-cdef-0123-456789abcdef");
    assert_eq!(uuid_text(0), "00000000-0000-0000-0000-000000000000");
    assert_eq!(uuid_text(u128::MAX), "ffffffff-ffff-ffff-ffff-ffffffffffff");
    assert_eq!(uuid_text(1), "00000000-0000-0000-0000-000000000001");
}

#[test]
fn active_request_penalty_is_floored() {
    assert_eq!(active_request_impact(-5, -20, 0), 0);
    assert_eq!(active_request_impact(-5, -20, 2), -10);
    assert_eq!(active_request_impact(-5, -20, 4), -20);
    assert_eq!(active_request_impact(-5, -20, 10), -20);
}

#[test]
fn pressure_penalty_applies_to_cold_loads_only() {
    assert_eq!(pressure_impact(false, true, true, -25, -10), 0);
    assert_eq!(pressure_impact(true, true, true, -25, -10), -25);
    assert_eq!(pressure_impact(true, false, true, -25, -10), -10);
    assert_eq!(pressure_impact(true, false, false, -25, -10), 0);
}

#[test]
fn projected_usage_adds_the_requirement_of_a_cold_load() {
    assert_eq!(projected_usage_mb(Some(1_000), true, Some(500)), 1_500);
    assert_eq!(projected_usage_mb(Some(1_000), false, Some(500)), 1_000);
    assert_eq!(projected_usage_mb(None, true, Some(500)), 500);
    assert_eq!(projected_usage_mb(Some(1_000), true, None), 1_000);
}

#[test]
fn pressure_reasons_explain_the_reading() {
    let unknown = unknown_capacity_reason("vram");
    assert_eq!(unknown.code, "pressure.vram");
    assert_eq!(
        unknown.detail,
        "vram capacity is unknown; treating residency as unproven and assigning no pressure credit"
    );
    assert_eq!(unknown.impact, 0);

    let measured = measured_pressure_reason("ram", 40, 90, -25);
    assert_eq!(measured.code, "pressure.ram");
    assert_eq!(measured.detail, "ram pressure is 40% now and 90% projected after this placement");
    assert_eq!(measured.impact, -25);

    let active = active_requests_reason(3, -15);
    assert_eq!(active.code, "pressure.active_requests");
    assert_eq!(active.detail, "runtime is serving 3 active request(s)");
    assert_eq!(active.impact, -15);
}
