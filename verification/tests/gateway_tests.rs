use anemoi::config::{AnemoiConfig, ContinuityConfig, DomainConfig, RuntimeConfig};
use anemoi::gateway::{
    domain_catalog, gateway_domain, gateway_request, gateway_route, mock_completion_events, resolve_domain,
    GatewayError, DEFAULT_GATEWAY_LATENCY_BUDGET_MS,
};
use anemoi::model::{
    Decision, DecisionAction, DecisionScore, DomainId, ExecutionMode, Explanation, ModelId, RequestId, RuntimeId,
};

fn config() -> AnemoiConfig {
    AnemoiConfig {
        domains: vec![
            (DomainId("general".to_string()), DomainConfig { rosters: vec![] }),
            (DomainId("coding".to_string()), DomainConfig { rosters: vec![] }),
        ],
        residency_groups: vec![],
        models: vec![],
        runtimes: vec![
            (
                RuntimeId("mock".to_string()),
                RuntimeConfig { adapter: "mock".to_string(), base_url: None, auth_token: None, initial_residents: vec![] },
            ),
            (
                RuntimeId("swap".to_string()),
                RuntimeConfig {
                    adapter: "llama_swap".to_string(),
                    base_url: Some("http://127.0.0.1:8085".to_string()),
                    auth_token: Some("tok".to_string()),
                    initial_residents: vec![],
                },
            ),
            (
                RuntimeId("bare".to_string()),
                RuntimeConfig { adapter: "ollama".to_string(), base_url: None, auth_token: None, initial_residents: vec![] },
            ),
        ],
        continuity: ContinuityConfig::default(),
    }
}

fn decision(model: Option<&str>, runtime: Option<&str>) -> Decision {
    Decision {
        id: 42,
        request_id: RequestId("req".to_string()),
        action: DecisionAction::ReuseHot,
        selected_model: model.map(|m| ModelId(m.to_string())),
        selected_runtime: runtime.map(|r| RuntimeId(r.to_string())),
        selected_group: None,
        background_model: None,
        score: DecisionScore { total: 0, contributions: vec![] },
        explanation: Explanation { summary: "nothing fits".to_string(), reasons: vec![], rejected_options: vec![] },
        created_at: 0,
    }
}

#[test]
fn inference_gateway_maps_model_field_to_domain() {
    assert_eq!(resolve_domain("coding"), "coding");
    assert_eq!(resolve_domain("general"), "general");
}

#[test]
fn inference_gateway_strips_anemoi_prefix_from_model_field() {
    assert_eq!(resolve_domain("anemoi-coding"), "coding");
    assert_eq!(resolve_domain("coding"), "coding");
}

#[test]
fn resolve_domain_strips_only_one_leading_prefix() {
    assert_eq!(resolve_domain("anemoi-anemoi-coding"), "anemoi-coding");
    assert_eq!(resolve_domain("my-anemoi-coding"), "my-anemoi-coding");
    assert_eq!(resolve_domain("anemoi-"), "");
    assert_eq!(resolve_domain("anemoi"), "anemoi");
}

#[test]
fn inference_gateway_returns_error_for_unknown_domain() {
    let config = config();

    let err = gateway_domain(&config, Some("nonsense")).unwrap_err();
    assert_eq!(err.status, 400);
    assert!(err.message.contains("nonsense"));
    assert_eq!(err.message, "unknown domain `nonsense`");
    assert_eq!(err.decision_id, None);
    assert_eq!(
        gateway_domain(&config, None),
        Err(GatewayError { status: 400, message: "request is missing a string `model` field".to_string(), decision_id: None })
    );
    assert_eq!(gateway_domain(&config, Some("anemoi-coding")), Ok("coding".to_string()));
}

#[test]
fn gateway_request_is_interactive_with_the_gateway_budget() {
    let request = gateway_request("coding".to_string());

    assert_eq!(request.domain, DomainId("coding".to_string()));
    assert_eq!(request.mode, ExecutionMode::Interactive);
    assert_eq!(request.latency_budget_ms, Some(DEFAULT_GATEWAY_LATENCY_BUDGET_MS));
    assert_eq!(request.latency_budget_ms, Some(30_000));
    assert_eq!(request.prompt_tokens_estimate, None);
    assert_eq!(request.id.0.len(), 36);
}

#[test]
fn inference_gateway_forwards_mock_without_live_execute_flag() {
    let route = gateway_route(&config(), "coding", &decision(Some("qwen9b"), Some("mock")), false).expect("route");

    assert_eq!(route.selected_model, ModelId("qwen9b".to_string()));
    assert_eq!(route.runtime_id, RuntimeId("mock".to_string()));
    assert_eq!(route.target, None);
}

#[test]
fn inference_gateway_requires_live_execute_flag_for_non_mock() {
    let err = gateway_route(&config(), "coding", &decision(Some("qwen9b"), Some("swap")), false).unwrap_err();
    assert_eq!(err.status, 403);
    assert_eq!(err.decision_id, Some(42));
    assert_eq!(err.message, "forwarding to a non-mock runtime requires ANEMOI_ENABLE_LIVE_EXECUTE=1");

    let route = gateway_route(&config(), "coding", &decision(Some("qwen9b"), Some("swap")), true).expect("route");
    let target = route.target.expect("target");
    assert_eq!(target.base_url, "http://127.0.0.1:8085");
    assert_eq!(target.auth_token, Some("tok".to_string()));
}

#[test]
fn inference_gateway_reports_missing_selection_and_base_url() {
    let err = gateway_route(&config(), "coding", &decision(None, None), true).unwrap_err();
    assert_eq!(err.status, 503);
    assert_eq!(err.message, "no runnable model for domain `coding`: nothing fits");
    assert_eq!(err.decision_id, Some(42));

    let err = gateway_route(&config(), "coding", &decision(Some("m"), Some("bare")), true).unwrap_err();
    assert_eq!(err.status, 502);
    assert_eq!(err.message, "runtime `bare` has no base_url configured");
}

#[test]
fn inference_gateway_rewrites_model_to_selected_model() {
    let events = mock_completion_events("qwen9b");

    assert_eq!(events.len(), 2);
    assert_eq!(
        events[0],
        "data: {\"object\":\"chat.completion.chunk\",\"model\":\"qwen9b\",\"choices\":[{\"index\":0,\"delta\":{\"role\":\"assistant\",\"content\":\"mock response from qwen9b\"}}]}\n\n"
    );
    assert_eq!(events[1], "data: [DONE]\n\n");
}

#[test]
fn model_catalog_lists_domains_sorted() {
    assert_eq!(domain_catalog(&config()), vec!["coding".to_string(), "general".to_string()]);
}
