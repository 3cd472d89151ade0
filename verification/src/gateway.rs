//! The OpenAI-compatible inference gateway's decisions: the `model` field
//! names a governance domain, the scheduler picks the runtime model, and the
//! request is forwarded only where the rules allow.
use vstd::prelude::*;
use crate::config::AnemoiConfig;
use crate::control::{is_mock_runtime, runtime_forward_target, runtime_is_mock};
use crate::model::{Decision, DomainId, ExecutionMode, InferenceRequest, ModelId, RequestId, RuntimeId};
use crate::runtime::ForwardTarget;
use crate::sorting::{SortKey, is_stable_sort, lemma_stable_sort_map, stable_sort};
use crate::status::text_order;
use crate::text::{owned, push_str, str_eq};

verus! {

/// The latency budget of gateway requests, in milliseconds: the
/// chat-completions schema has no field for one.
pub const DEFAULT_GATEWAY_LATENCY_BUDGET_MS: u64 = 30000;

/// The domain a `model` field names: the field without a leading
/// `anemoi-`.
pub open spec fn domain_of(model_field: Seq<char>) -> Seq<char> {
    if model_field.len() >= 7 && model_field.take(7) == "anemoi-"@ {
        model_field.skip(7)
    } else {
        model_field
    }
}

/// Treats the OpenAI `model` field as a governance domain, stripping an
/// optional `anemoi-` prefix: `coding` and `anemoi-coding` both name the
/// `coding` domain.
pub fn resolve_domain(model_field: &str) -> (r: &str)
    ensures
        r@ == domain_of(model_field@),
{
    proof {
        reveal_strlit("anemoi-");
    }
    let n = model_field.unicode_len();
    if n >= 7 {
        let head = model_field.substring_char(0, 7);
        if str_eq(head, "anemoi-") {
            return model_field.substring_char(7, n);
        }
    }
    model_field
}

/// A gateway refusal: the HTTP status, the message, and the decision
/// already made, if any.
#[derive(Debug, PartialEq, Eq)]
pub struct GatewayError {
    pub status: u16,
    pub message: String,
    pub decision_id: Option<u128>,
}

/// The domain of a chat-completion request whose `model` field is
/// `model_field` (`None` when the field is missing or not a string):
/// refused with 400 when it is missing or names no configured domain.
pub fn gateway_domain(cfg: &AnemoiConfig, model_field: Option<&str>) -> (r: Result<String, GatewayError>)
    ensures
        model_field is None ==> (r matches Err(e) && e.status == 400 && e.decision_id is None
            && e.message@ == "request is missing a string `model` field"@),
        model_field matches Some(f) ==> {
            let d = domain_of(f@);
            &&& cfg.has_domain(d) ==> (r matches Ok(x) && x@ == d)
            &&& !cfg.has_domain(d) ==> (r matches Err(e) && e.status == 400 && e.decision_id is None
                && e.message@ == "unknown domain `"@ + d + "`"@)
        },
{
    match model_field {
        None => Err(GatewayError { status: 400, message: owned("request is missing a string `model` field"), decision_id: None }),
        Some(f) => {
            let d = resolve_domain(f);
            match cfg.find_domain(d) {
                Some(_) => Ok(owned(d)),
                None => {
                    let mut m = owned("unknown domain `");
                    push_str(&mut m, d);
                    push_str(&mut m, "`");
                    Err(GatewayError { status: 400, message: m, decision_id: None })
                },
            }
        },
    }
}

/// The request the gateway decides on for `domain`: interactive, with the
/// gateway latency budget and nothing else known, under a fresh id.
pub fn gateway_request(domain: String) -> (r: InferenceRequest)
    ensures
        r.domain.0 == domain,
        r.mode == ExecutionMode::Interactive,
        r.prompt_tokens_estimate is None,
        r.max_output_tokens is None,
        r.latency_budget_ms == Some(DEFAULT_GATEWAY_LATENCY_BUDGET_MS),
        r.quality_floor is None,
{
    InferenceRequest {
        id: RequestId::new(),
        domain: DomainId(domain),
        mode: ExecutionMode::Interactive,
        prompt_tokens_estimate: None,
        max_output_tokens: None,
        latency_budget_ms: Some(DEFAULT_GATEWAY_LATENCY_BUDGET_MS),
        quality_floor: None,
    }
}

/// Where the gateway sends a request once decided: the selected model and
/// runtime, and the forward target (`None` for a mock runtime, which answers
/// in process).
#[derive(Debug, PartialEq, Eq)]
pub struct GatewayRoute {
    pub selected_model: ModelId,
    pub runtime_id: RuntimeId,
    pub target: Option<ForwardTarget>,
}

/// Routes decision `d` for `domain`: refused with 503 when it selected no
/// model or runtime, with 403 when the runtime is not a mock and live
/// execution is off, with 502 when the runtime has no base URL; otherwise
/// a mock runtime answers itself and any other runtime gets the request at
/// its configured target.
pub fn gateway_route(cfg: &AnemoiConfig, domain: &str, d: &Decision, live: bool) -> (r: Result<GatewayRoute, GatewayError>)
    ensures
        (d.selected_model is None || d.selected_runtime is None) ==> (r matches Err(e) && e.status == 503
            && e.decision_id == Some(d.id)
            && e.message@ == "no runnable model for domain `"@ + domain@ + "`: "@ + d.explanation.summary@),
        d.selected_model matches Some(m) ==> d.selected_runtime matches Some(rt) ==> {
            let mock = is_mock_runtime(*cfg, rt.0@);
            &&& !mock && !live ==> (r matches Err(e) && e.status == 403 && e.decision_id == Some(d.id)
                && e.message@ == "forwarding to a non-mock runtime requires ANEMOI_ENABLE_LIVE_EXECUTE=1"@)
            &&& !mock && live && (!cfg.has_runtime(rt.0@) || cfg.runtime(rt.0@).base_url is None) ==> (r matches Err(e)
                && e.status == 502 && e.decision_id == Some(d.id)
                && e.message@ == "runtime `"@ + rt.0@ + "` has no base_url configured"@)
            &&& mock ==> (r matches Ok(route) && route.selected_model == m && route.runtime_id == rt && route.target is None)
            &&& !mock && live && cfg.has_runtime(rt.0@) && cfg.runtime(rt.0@).base_url is Some ==> (r matches Ok(route)
                && route.selected_model == m && route.runtime_id == rt && (route.target matches Some(t)
                && Some(t.base_url) == cfg.runtime(rt.0@).base_url && t.auth_token == cfg.runtime(rt.0@).auth_token))
        },
{
    let (m, rt) = match (&d.selected_model, &d.selected_runtime) {
        (Some(m), Some(rt)) => (m, rt),
        _ => {
            let mut msg = owned("no runnable model for domain `");
            push_str(&mut msg, domain);
            push_str(&mut msg, "`: ");
            push_str(&mut msg, d.explanation.summary.as_str());
            return Err(GatewayError { status: 503, message: msg, decision_id: Some(d.id) });
        },
    };
    let mock = runtime_is_mock(cfg, rt.0.as_str());
    if !mock && !live {
        return Err(
            GatewayError {
                status: 403,
                message: owned("forwarding to a non-mock runtime requires ANEMOI_ENABLE_LIVE_EXECUTE=1"),
                decision_id: Some(d.id),
            },
        );
    }
    if mock {
        return Ok(GatewayRoute { selected_model: m.clone(), runtime_id: rt.clone(), target: None });
    }
    match runtime_forward_target(cfg, rt.0.as_str()) {
        Some(t) => Ok(GatewayRoute { selected_model: m.clone(), runtime_id: rt.clone(), target: Some(t) }),
        None => {
            let mut msg = owned("runtime `");
            push_str(&mut msg, rt.0.as_str());
            push_str(&mut msg, "` has no base_url configured");
            Err(GatewayError { status: 502, message: msg, decision_id: Some(d.id) })
        },
    }
}

/// The first server-sent event of the mock runtime's answer, which echoes
/// the model the gateway selected.
pub open spec fn mock_chunk(m: Seq<char>) -> Seq<char> {
    "data: {\"object\":\"chat.completion.chunk\",\"model\":\""@ + m
        + "\",\"choices\":[{\"index\":0,\"delta\":{\"role\":\"assistant\",\"content\":\"mock response from "@ + m
        + "\"}}]}\n\n"@
}

/// The server-sent events of the mock runtime's deterministic answer: one
/// chunk naming `selected_model`, then the end marker.
pub fn mock_completion_events(selected_model: &str) -> (r: Vec<String>)
    ensures
        r@.len() == 2,
        r@[0]@ == mock_chunk(selected_model@),
        r@[1]@ == "data: [DONE]\n\n"@,
{
    let mut chunk = owned("data: {\"object\":\"chat.completion.chunk\",\"model\":\"");
    push_str(&mut chunk, selected_model);
    push_str(&mut chunk, "\",\"choices\":[{\"index\":0,\"delta\":{\"role\":\"assistant\",\"content\":\"mock response from ");
    push_str(&mut chunk, selected_model);
    push_str(&mut chunk, "\"}}]}\n\n");
    let mut out: Vec<String> = Vec::new();
    out.push(chunk);
    out.push(owned("data: [DONE]\n\n"));
    out
}

/// The configured domain ids, in configuration order.
pub open spec fn domain_ids(cfg: AnemoiConfig) -> Seq<Seq<char>> {
    cfg.domains@.map_values(|e: (DomainId, crate::config::DomainConfig)| e.0.0@)
}

/// The ids of the governance domains the gateway lists as models, sorted.
/// Runtime model ids never appear here.
pub fn domain_catalog(cfg: &AnemoiConfig) -> (r: Vec<String>)
    ensures
        is_stable_sort(r@.map_values(|s: String| s@), domain_ids(*cfg), text_order()),
{
    let mut keys: Vec<String> = Vec::new();
    let mut i: usize = 0;
    while i < cfg.domains.len()
        invariant
            i <= cfg.domains@.len(),
            keys@.map_values(|s: String| s@) == domain_ids(*cfg).take(i as int),
        decreases cfg.domains@.len() - i,
    {
        let ghost before = keys@;
        keys.push(cfg.domains[i].0.0.clone());
        proof {
            assert(domain_ids(*cfg)[i as int] == cfg.domains@[i as int].0.0@);
            assert(keys@.map_values(|s: String| s@) =~= before.map_values(|s: String| s@).push(cfg.domains@[i as int].0.0@));
            assert(domain_ids(*cfg).take(i + 1) =~= domain_ids(*cfg).take(i as int).push(domain_ids(*cfg)[i as int]));
        }
        i = i + 1;
    }
    proof {
        assert(domain_ids(*cfg).take(cfg.domains@.len() as int) =~= domain_ids(*cfg));
    }
    let ghost unsorted = keys@;
    let sorted = stable_sort(keys);
    proof {
        lemma_stable_sort_map(sorted@, unsorted, |a: String, b: String| String::spec_le(a, b), |s: String| s@, text_order());
    }
    sorted
}

/// Only one leading `anemoi-` is stripped: `anemoi-` followed by a name
/// names that name, and a name without the prefix names itself.
pub proof fn lemma_domain_prefix(name: Seq<char>)
    ensures
        domain_of("anemoi-"@ + name) == name,
        !text_starts_with_prefix(name) ==> domain_of(name) == name,
{
    reveal_strlit("anemoi-");
    let full = "anemoi-"@ + name;
    assert(full.take(7) =~= "anemoi-"@);
    assert(full.skip(7) =~= name);
}

pub open spec fn text_starts_with_prefix(name: Seq<char>) -> bool {
    name.len() >= 7 && name.take(7) == "anemoi-"@
}

} // verus!
