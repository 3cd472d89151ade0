use anemoi::colocation::{parse_colocation_expr, ColocationSet, LlamaSwapMatrixConfig};
use anemoi::llama_swap::{
    apply_model_status, bytes_to_mb, entries_states, find_subslice, status_frame_data_of, normalize_model_id, parse_model_status_payload,
    residents_from_states, sse_data_field, LlamaSwapModelState, SseDecoder,
};
use anemoi::model::{
    ExecutionRequest, ModelId, ModelResident, RequestId, ResidencyState, RuntimeId,
    RuntimeMemorySnapshot,
};
use anemoi::runtime::{configured_model_ids, ollama_residents, MockRuntimeAdapter, OllamaRunningModel};

fn m(id: &str) -> ModelId {
    ModelId(id.to_string())
}

fn matrix(sets: &[(&str, &str)]) -> LlamaSwapMatrixConfig {
    LlamaSwapMatrixConfig {
        vars: vec![],
        evict_costs: vec![],
        sets: sets
            .iter()
            .map(|(name, models)| ColocationSet { name: name.to_string(), models: models.to_string() })
            .collect(),
    }
}

#[test]
fn llama_swap_model_state_maps_wire_strings() {
    assert_eq!(LlamaSwapModelState::from_wire("stopped"), Some(LlamaSwapModelState::Stopped));
    assert_eq!(LlamaSwapModelState::from_wire("starting"), Some(LlamaSwapModelState::Starting));
    assert_eq!(LlamaSwapModelState::from_wire("ready"), Some(LlamaSwapModelState::Ready));
    assert_eq!(LlamaSwapModelState::from_wire("stopping"), Some(LlamaSwapModelState::Stopping));
    assert_eq!(LlamaSwapModelState::from_wire("shutdown"), Some(LlamaSwapModelState::Shutdown));
    assert_eq!(LlamaSwapModelState::from_wire("bogus"), None);
}

#[test]
fn llama_swap_model_state_residency_omits_unloaded() {
    assert_eq!(LlamaSwapModelState::Stopped.residency(), None);
    assert_eq!(LlamaSwapModelState::Shutdown.residency(), None);
    assert_eq!(LlamaSwapModelState::Starting.residency(), Some(ResidencyState::Loading));
    assert_eq!(LlamaSwapModelState::Ready.residency(), Some(ResidencyState::HotGpu));
    assert_eq!(LlamaSwapModelState::Stopping.residency(), Some(ResidencyState::Draining));
}

#[test]
fn parse_model_status_payload_extracts_double_encoded_states() {
    let payload = r#"{"type":"modelStatus","data":"[{\"id\":\"minimax\",\"state\":\"starting\"},{\"id\":\"gemma\",\"state\":\"ready\"}]"}"#;

    let parsed = parse_model_status_payload(payload).expect("modelStatus frame");

    assert_eq!(
        parsed,
        vec![
            ("minimax".to_string(), LlamaSwapModelState::Starting),
            ("gemma".to_string(), LlamaSwapModelState::Ready),
        ]
    );
}

#[test]
fn parse_model_status_payload_ignores_other_frame_types() {
    let payload = r#"{"type":"logData","data":"some log line"}"#;
    assert_eq!(parse_model_status_payload(payload), None);
}

#[test]
fn parse_model_status_payload_drops_unknown_states_and_rejects_malformed() {
    let payload = r#"{"type":"modelStatus","data":"[{\"id\":\"a\",\"state\":\"weird\"},{\"id\":\"b\",\"state\":\"stopped\"}]"}"#;
    assert_eq!(
        parse_model_status_payload(payload),
        Some(vec![("b".to_string(), LlamaSwapModelState::Stopped)])
    );
    assert_eq!(parse_model_status_payload("{not json"), None);
    assert_eq!(parse_model_status_payload(r#"{"type":"modelStatus","data":"not a list"}"#), None);
    assert_eq!(parse_model_status_payload(r#"{"type":"modelStatus"}"#), None);
}

#[test]
fn sse_decoder_emits_frame_only_once_complete() {
    let event = format!(
        "data: {}\n\n",
        r#"{"type":"modelStatus","data":"[{\"id\":\"gemma\",\"state\":\"ready\"}]"}"#
    );
    let (head, tail) = event.split_at(20);
    let mut decoder = SseDecoder::default();

    assert!(decoder.push(head.as_bytes()).is_empty(), "a partial frame must not emit an update");
    let updates = decoder.push(tail.as_bytes());

    assert_eq!(updates, vec![vec![("gemma".to_string(), LlamaSwapModelState::Ready)]]);
}

#[test]
fn sse_decoder_splits_multiple_events_in_one_chunk() {
    let chunk = format!(
        "data: {}\n\ndata: {}\n\n",
        r#"{"type":"modelStatus","data":"[{\"id\":\"a\",\"state\":\"starting\"}]"}"#,
        r#"{"type":"modelStatus","data":"[{\"id\":\"a\",\"state\":\"ready\"}]"}"#
    );
    let mut decoder = SseDecoder::default();

    let updates = decoder.push(chunk.as_bytes());

    assert_eq!(
        updates,
        vec![
            vec![("a".to_string(), LlamaSwapModelState::Starting)],
            vec![("a".to_string(), LlamaSwapModelState::Ready)],
        ]
    );
}

#[test]
fn sse_decoder_handles_crlf_delimiters_and_byte_by_byte_feeding() {
    let stream = format!(
        "event: x\r\ndata: {}\r\n\r\n: heartbeat\r\n\r\n",
        r#"{"type":"modelStatus","data":"[{\"id\":\"q\",\"state\":\"stopping\"}]"}"#
    );
    let mut whole = SseDecoder::default();
    let at_once = whole.push(stream.as_bytes());

    let mut piecewise = SseDecoder::default();
    let mut collected = Vec::new();
    for b in stream.as_bytes() {
        collected.extend(piecewise.push(&[*b]));
    }

    assert_eq!(at_once, vec![vec![("q".to_string(), LlamaSwapModelState::Stopping)]]);
    assert_eq!(collected, at_once);
}

#[test]
fn sse_data_field_joins_data_lines() {
    assert_eq!(sse_data_field("data: a\ndata:b\nid: 3"), Some("a\nb".to_string()));
    assert_eq!(sse_data_field("event: ping"), None);
    assert_eq!(sse_data_field("data:  two spaces"), Some(" two spaces".to_string()));
}

#[test]
fn find_subslice_finds_first_occurrence() {
    assert_eq!(find_subslice(b"ab\n\ncd\n\n", b"\n\n"), Some(2));
    assert_eq!(find_subslice(b"abc", b"\n\n"), None);
    assert_eq!(find_subslice(b"\n", b"\n\n"), None);
}

#[test]
fn residents_from_states_omits_unloaded_and_sorts() {
    let states = vec![
        ("models/qwen9b.gguf".to_string(), LlamaSwapModelState::Ready),
        ("granite8b".to_string(), LlamaSwapModelState::Starting),
        ("minimax".to_string(), LlamaSwapModelState::Stopped),
    ];

    let residents = residents_from_states(&states);

    assert_eq!(residents.len(), 2, "stopped model must be omitted");
    assert_eq!(residents[0].model_id, ModelId("granite8b".to_string()));
    assert_eq!(residents[0].state, ResidencyState::Loading);
    assert_eq!(residents[1].model_id, ModelId("qwen9b".to_string()));
    assert_eq!(residents[1].state, ResidencyState::HotGpu);
}

#[test]
fn apply_model_status_replaces_previous_snapshot() {
    let mut cache: Vec<(String, LlamaSwapModelState)> = Vec::new();
    apply_model_status(&mut cache, vec![("gemma".to_string(), LlamaSwapModelState::Ready)]);
    apply_model_status(&mut cache, vec![("qwen9b".to_string(), LlamaSwapModelState::Starting)]);

    assert_eq!(cache.len(), 1, "full snapshot replaces, not merges");
    assert_eq!(cache[0], ("qwen9b".to_string(), LlamaSwapModelState::Starting));
    assert!(cache.iter().all(|(name, _)| name != "gemma"));
}

#[test]
fn apply_model_status_keeps_last_state_of_a_repeated_name() {
    let mut cache: Vec<(String, LlamaSwapModelState)> = Vec::new();
    apply_model_status(
        &mut cache,
        vec![
            ("a".to_string(), LlamaSwapModelState::Starting),
            ("b".to_string(), LlamaSwapModelState::Ready),
            ("a".to_string(), LlamaSwapModelState::Ready),
        ],
    );

    assert_eq!(
        cache,
        vec![
            ("a".to_string(), LlamaSwapModelState::Ready),
            ("b".to_string(), LlamaSwapModelState::Ready),
        ]
    );
}

#[test]
fn normalize_model_id_strips_path_and_extension() {
    assert_eq!(normalize_model_id("models/qwen9b.gguf"), m("qwen9b"));
    assert_eq!(normalize_model_id("C:\\models\\granite8b.bin"), m("granite8b"));
    assert_eq!(normalize_model_id("qwen35_a3b"), m("qwen35_a3b"));
    assert_eq!(normalize_model_id("a/b/"), m(""));
    assert_eq!(normalize_model_id("x.gguf.bin"), m("x.gguf"));
}

#[test]
fn bytes_to_mb_rounds_down_to_mebibytes() {
    assert_eq!(bytes_to_mb(9 * 1024 * 1024), 9);
    assert_eq!(bytes_to_mb(1024 * 1024 - 1), 0);
    assert_eq!(bytes_to_mb(5_000_000_000), 4768);
}

#[test]
fn can_colocate_true_for_models_in_shared_and_set() {
    let matrix = matrix(&[("pair", "qwen9b & qwen35_a3b")]);

    assert!(matrix.can_colocate(&m("qwen9b"), &m("qwen35_a3b")));
    assert!(matrix.can_colocate(&m("qwen35_a3b"), &m("qwen9b")));
}

#[test]
fn can_colocate_false_for_models_not_in_any_set_together() {
    let matrix = matrix(&[("pair", "qwen9b & qwen35_a3b"), ("solo", "minimax")]);

    assert!(!matrix.can_colocate(&m("qwen9b"), &m("minimax")));
    assert!(!matrix.can_colocate(&m("qwen35_a3b"), &m("minimax")));
    assert!(!matrix.can_colocate(&m("qwen9b"), &m("gemma")));
}

#[test]
fn or_branches_are_alternatives_not_colocated() {
    let matrix = matrix(&[("either", "qwen9b | qwen35_a3b")]);

    assert!(!matrix.can_colocate(&m("qwen9b"), &m("qwen35_a3b")));
}

#[test]
fn grouping_colocates_each_alternative_with_shared_factor() {
    let matrix = matrix(&[("grouped", "(qwen4b | qwen2b) & gemma_e2b")]);

    assert!(matrix.can_colocate(&m("qwen4b"), &m("gemma_e2b")));
    assert!(matrix.can_colocate(&m("qwen2b"), &m("gemma_e2b")));
    assert!(!matrix.can_colocate(&m("qwen4b"), &m("qwen2b")));
}

#[test]
fn full_llama_swap_config_ignores_unrelated_keys() {
    let matrix = matrix(&[("pair", "qwen9b-co & qwen35_a3b-co")]);

    assert!(matrix.can_colocate(&m("qwen9b-co"), &m("qwen35_a3b-co")));
    assert!(!matrix.can_colocate(&m("qwen9b-co"), &m("minimax")));
}

fn resident(id: &str, state: ResidencyState) -> ModelResident {
    ModelResident {
        model_id: m(id),
        state,
        vram_mb: Some(9000),
        ram_mb: None,
        kv_cache_mb: None,
        loaded_since: None,
    }
}

#[test]
fn mock_runtime_starts_with_configured_residents() {
    let runtime = MockRuntimeAdapter::new(RuntimeId("mock".to_string()), vec![resident("qwen9b", ResidencyState::HotGpu)]);

    let snapshot = runtime.inspect();

    assert_eq!(snapshot.runtime_id, RuntimeId("mock".to_string()));
    assert!(snapshot.available);
    assert_eq!(snapshot.residents, vec![resident("qwen9b", ResidencyState::HotGpu)]);
    assert!(snapshot.active_requests.is_empty());
    assert_eq!(snapshot.memory, RuntimeMemorySnapshot::default());
}

#[test]
fn mock_runtime_load_adds_loading_resident_once() {
    let mut runtime = MockRuntimeAdapter::new(RuntimeId("mock".to_string()), Vec::new());

    let first = runtime.load_model(&m("qwen35_a3b"));
    let second = runtime.load_model(&m("qwen35_a3b"));
    let snapshot = runtime.inspect();

    assert_eq!(first.model_id, m("qwen35_a3b"));
    assert_ne!(first.id, second.id);
    assert_eq!(snapshot.residents.len(), 1);
    assert_eq!(snapshot.residents[0].state, ResidencyState::Loading);
    assert_eq!(snapshot.residents[0].vram_mb, None);
}

#[test]
fn mock_runtime_unload_removes_resident() {
    let mut runtime = MockRuntimeAdapter::new(
        RuntimeId("mock".to_string()),
        vec![resident("qwen9b", ResidencyState::HotGpu), resident("granite8b", ResidencyState::WarmCpu)],
    );

    runtime.unload_model(&m("qwen9b"));

    assert_eq!(runtime.inspect().residents, vec![resident("granite8b", ResidencyState::WarmCpu)]);
}

#[test]
fn mock_runtime_execute_records_active_request() {
    let mut runtime = MockRuntimeAdapter::new(RuntimeId("mock".to_string()), Vec::new());
    let request = ExecutionRequest {
        request_id: RequestId("req-1".to_string()),
        model_id: m("qwen9b"),
        prompt: Some("hello".to_string()),
    };

    let handle = runtime.execute(request);
    let snapshot = runtime.inspect();

    assert_eq!(handle.request.request_id, RequestId("req-1".to_string()));
    assert_eq!(snapshot.active_requests.len(), 1);
    assert_eq!(snapshot.active_requests[0].model_id, m("qwen9b"));
    assert_eq!(snapshot.active_requests[0].request_id, RequestId("req-1".to_string()));
}

#[test]
fn mock_runtime_memory_and_resident_state_are_configurable() {
    let memory = RuntimeMemorySnapshot {
        vram_total_mb: Some(24000),
        vram_used_mb: Some(9000),
        ram_total_mb: None,
        ram_used_mb: None,
    };
    let runtime = MockRuntimeAdapter::new(RuntimeId("mock".to_string()), vec![resident("qwen9b", ResidencyState::HotGpu)])
        .with_memory(memory.clone())
        .with_available(false)
        .with_resident_state(m("qwen9b"), ResidencyState::Serving)
        .with_resident_state(m("gemma"), ResidencyState::WarmCpu);

    let snapshot = runtime.inspect();

    assert_eq!(snapshot.memory, memory);
    assert!(!snapshot.available);
    assert_eq!(snapshot.residents.len(), 2);
    assert_eq!(snapshot.residents[0].state, ResidencyState::Serving);
    assert_eq!(snapshot.residents[0].vram_mb, Some(9000));
    assert_eq!(snapshot.residents[1].model_id, m("gemma"));
    assert_eq!(snapshot.residents[1].state, ResidencyState::WarmCpu);
}

#[test]
fn ollama_ps_response_maps_running_models_to_hot_residents() {
    let models = vec![
        OllamaRunningModel { name: "qwen3:8b".to_string(), size_vram: Some(8 * 1024 * 1024 * 1024), size: Some(9 * 1024 * 1024 * 1024) },
        OllamaRunningModel { name: "gemma".to_string(), size_vram: None, size: None },
    ];

    let residents = ollama_residents(&models);

    assert_eq!(residents.len(), 2);
    assert_eq!(residents[0].model_id, m("qwen3:8b"));
    assert_eq!(residents[0].state, ResidencyState::HotGpu);
    assert_eq!(residents[0].vram_mb, Some(8192));
    assert_eq!(residents[0].ram_mb, Some(9216));
    assert_eq!(residents[1].vram_mb, None);
}

#[test]
fn configured_model_ids_are_normalized() {
    let ids = vec!["models/qwen9b.gguf".to_string(), "granite8b".to_string()];
    assert_eq!(configured_model_ids(&ids), vec![m("qwen9b"), m("granite8b")]);
}

#[test]
fn adapter_id_is_stable() {
    let adapter = MockRuntimeAdapter::new(RuntimeId("mock".to_string()), Vec::new());

    assert_eq!(adapter.id(), RuntimeId("mock".to_string()));
    assert_eq!(adapter.id(), RuntimeId("mock".to_string()));
}

#[test]
fn unbalanced_parentheses_admit_no_loadouts() {
    assert!(parse_colocation_expr("(qwen9b & qwen35_a3b").is_empty());
    assert!(parse_colocation_expr("qwen9b & qwen35_a3b)").is_empty());
    assert!(parse_colocation_expr("").is_empty());
    assert_eq!(parse_colocation_expr("(qwen9b & qwen35_a3b)").len(), 1);
    let unbalanced = matrix(&[("pair", "(qwen9b & qwen35_a3b")]);
    assert!(!unbalanced.can_colocate(&m("qwen9b"), &m("qwen35_a3b")));
}

fn member(name: &str, value: Option<&str>) -> (String, Option<String>) {
    (name.to_string(), value.map(|v| v.to_string()))
}

#[test]
fn status_frame_data_requires_a_model_status_frame() {
    let frame = vec![member("type", Some("modelStatus")), member("data", Some("[]"))];
    assert_eq!(status_frame_data_of(&frame), Some("[]".to_string()));
    let other = vec![member("type", Some("logData")), member("data", Some("[]"))];
    assert_eq!(status_frame_data_of(&other), None);
    let no_data = vec![member("type", Some("modelStatus")), member("data", None)];
    assert_eq!(status_frame_data_of(&no_data), None);
}

#[test]
fn entries_states_drop_unknown_states_and_refuse_missing_fields() {
    let entries = vec![
        vec![member("id", Some("qwen9b")), member("state", Some("ready"))],
        vec![member("id", Some("gemma")), member("state", Some("sleeping"))],
    ];
    assert_eq!(entries_states(&entries), Some(vec![("qwen9b".to_string(), LlamaSwapModelState::Ready)]));
    let missing = vec![vec![member("id", Some("qwen9b"))]];
    assert_eq!(entries_states(&missing), None);
}

#[test]
fn matrix_without_sets_colocates_nothing() {
    let empty = matrix(&[]);

    assert!(!empty.can_colocate(&m("qwen9b"), &m("qwen9b")));
    assert!(!empty.can_colocate(&m("qwen9b"), &m("qwen35_a3b")));
}

#[test]
fn colocated_models_are_named_by_one_set() {
    let matrix = matrix(&[("pair", "qwen9b & (qwen35_a3b"), ("other", "gemma & minimax")]);

    assert!(!matrix.can_colocate(&m("qwen9b"), &m("qwen35_a3b")));
    assert!(matrix.can_colocate(&m("gemma"), &m("minimax")));
    assert!(!matrix.can_colocate(&m("gemma"), &m("qwen9b")));
}
