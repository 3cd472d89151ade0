//! The control plane's decisions around the scheduler: the action plan that
//! carries out a decision, group protection and eviction planning over the
//! reconciled snapshots, which runtime adapter serves each configured
//! runtime, and what may run without live execution enabled.
use vstd::prelude::*;
use crate::config::{AnemoiConfig, RuntimeConfig};
use crate::eviction::{plan_evictions, EvictionCandidateResident, EvictionPlan, EvictionRequest, eviction_outcome};
use crate::model::{
    decision_action_debug, decision_action_debug_name, ActionKind, ActionPlan, Decision,
    DecisionAction, ModelId, ModelResident, ResidencyState, RuntimeAction, RuntimeId, RuntimeSnapshot,
};
use crate::runtime::ForwardTarget;
use crate::staging::{StagingIntent, StagingWorker, StagingState};
use crate::scheduler::{best_index, cand_total, candidate_ok, decision_matches, is_first_best, outcome_holds, Candidate, CandidateKey, RejectedView};
use crate::model::{InferenceRequest, RejectedOption};
use crate::status::{idle_from, idle_secs};
use crate::text::{owned, push_str, str_eq};

verus! {

/// The cold-load estimate configured for model `m`, if any.
pub open spec fn model_cost(cfg: AnemoiConfig, m: Seq<char>) -> Option<u64> {
    if cfg.has_model(m) {
        cfg.model(m).cold_load_estimate_ms
    } else {
        None
    }
}

/// `a` is a load of `model` on `runtime`.
pub open spec fn is_load(a: RuntimeAction, runtime: RuntimeId, model: ModelId, foreground: bool, reason: Seq<char>, cost: Option<u64>) -> bool {
    &&& a.kind == ActionKind::Load
    &&& a.runtime_id == runtime
    &&& a.model_id == Some(model)
    &&& a.is_foreground == foreground
    &&& a.is_mutating
    &&& a.reason@ == reason
    &&& a.expected_cost_ms == cost
}

/// `a` is a no-op on the runtime named `runtime`.
pub open spec fn is_noop(a: RuntimeAction, runtime: Seq<char>, reason: Seq<char>) -> bool {
    &&& a.kind == ActionKind::NoOp
    &&& a.runtime_id.0@ == runtime
    &&& a.model_id is None
    &&& !a.is_foreground
    &&& !a.is_mutating
    &&& a.reason@ == reason
    &&& a.expected_cost_ms is None
}

/// The runtime a decision selected, by name, or `fallback`.
pub open spec fn runtime_or(d: Decision, fallback: Seq<char>) -> Seq<char> {
    match d.selected_runtime {
        Some(r) => r.0@,
        None => fallback,
    }
}

/// `actions` are the steps that carry out decision `d`: a hot reuse is a
/// no-op; a warm promotion or a cold load loads the selected model in the
/// foreground; background staging loads the background model; the rest are
/// no-ops naming the action.
pub open spec fn plan_matches(cfg: AnemoiConfig, d: Decision, actions: Seq<RuntimeAction>) -> bool {
    match d.action {
        DecisionAction::ReuseHot => actions.len() == 1 && is_noop(
            actions[0],
            runtime_or(d, "unknown"@),
            "Reuse hot model - no action needed"@,
        ),
        DecisionAction::PromoteWarm | DecisionAction::ColdLoad => match (d.selected_runtime, d.selected_model) {
            (Some(rt), Some(m)) => actions.len() == 1 && is_load(
                actions[0],
                rt,
                m,
                true,
                if d.action == DecisionAction::PromoteWarm {
                    "Promote warm model to hot"@
                } else {
                    "Cold load required model"@
                },
                model_cost(cfg, m.0@),
            ),
            _ => actions.len() == 0,
        },
        DecisionAction::StageBackground => match (d.selected_runtime, d.background_model) {
            (Some(rt), Some(m)) => actions.len() == 1 && is_load(
                actions[0],
                rt,
                m,
                false,
                "Background staging load"@,
                model_cost(cfg, m.0@),
            ),
            _ => actions.len() == 0,
        },
        _ => actions.len() == 1 && is_noop(
            actions[0],
            runtime_or(d, "none"@),
            decision_action_debug(d.action) + " - no action"@,
        ),
    }
}

fn model_cost_of(cfg: &AnemoiConfig, m: &ModelId) -> (r: Option<u64>)
    ensures
        r == model_cost(*cfg, m.0@),
{
    match cfg.find_model(m.0.as_str()) {
        Some(p) => p.cold_load_estimate_ms,
        None => None,
    }
}

fn runtime_or_named(d: &Decision, fallback: &str) -> (r: RuntimeId)
    ensures
        r.0@ == runtime_or(*d, fallback@),
        d.selected_runtime matches Some(x) ==> r == x,
{
    match &d.selected_runtime {
        Some(r) => r.clone(),
        None => RuntimeId(owned(fallback)),
    }
}

/// The action plan that carries out `decision`, marked `dry_run` or not.
pub fn generate_action_plan(cfg: &AnemoiConfig, decision: &Decision, dry_run: bool) -> (r: ActionPlan)
    ensures
        r.decision_id == decision.id,
        r.dry_run == dry_run,
        plan_matches(*cfg, *decision, r.actions@),
{
    let mut plan = ActionPlan::new(decision.id, dry_run);
    match decision.action {
        DecisionAction::ReuseHot => {
            plan.add_noop(runtime_or_named(decision, "unknown"), owned("Reuse hot model - no action needed"));
        },
        DecisionAction::PromoteWarm | DecisionAction::ColdLoad => {
            match (&decision.selected_runtime, &decision.selected_model) {
                (Some(runtime_id), Some(model_id)) => {
                    let reason = if decision.action == DecisionAction::PromoteWarm {
                        owned("Promote warm model to hot")
                    } else {
                        owned("Cold load required model")
                    };
                    let cost = model_cost_of(cfg, model_id);
                    plan.add_load(runtime_id.clone(), model_id.clone(), true, reason, cost);
                },
                _ => {},
            }
        },
        DecisionAction::StageBackground => {
            match (&decision.selected_runtime, &decision.background_model) {
                (Some(runtime_id), Some(model_id)) => {
                    let cost = model_cost_of(cfg, model_id);
                    plan.add_load(runtime_id.clone(), model_id.clone(), false, owned("Background staging load"), cost);
                },
                _ => {},
            }
        },
        _ => {
            let mut reason = owned(decision_action_debug_name(decision.action));
            push_str(&mut reason, " - no action");
            plan.add_noop(runtime_or_named(decision, "none"), reason);
        },
    }
    plan
}

/// Whether some configured residency group holding `model` has the flag
/// `keep_hot` (when `pinned_flag` is false) or `pinned` (when true).
pub open spec fn group_flag(cfg: AnemoiConfig, model: Seq<char>, pinned_flag: bool) -> bool {
    exists|i: int, j: int|
        #![trigger cfg.residency_groups@[i].1.models@[j]]
        0 <= i < cfg.residency_groups@.len() && 0 <= j < cfg.residency_groups@[i].1.models@.len()
            && cfg.residency_groups@[i].1.models@[j].0@ == model && (if pinned_flag {
            cfg.residency_groups@[i].1.pinned
        } else {
            cfg.residency_groups@[i].1.keep_hot
        })
}

/// Whether model `model` is protected by a keep-hot group and by a pinned
/// group: each flag is set when any group holding the model sets it.
pub fn group_protection(cfg: &AnemoiConfig, model_id: &ModelId) -> (r: (bool, bool))
    ensures
        r.0 == group_flag(*cfg, model_id.0@, false),
        r.1 == group_flag(*cfg, model_id.0@, true),
{
    let mut keep_hot = false;
    let mut pinned = false;
    let mut i: usize = 0;
    while i < cfg.residency_groups.len()
        invariant
            i <= cfg.residency_groups@.len(),
            keep_hot == exists|a: int, b: int|
                #![trigger cfg.residency_groups@[a].1.models@[b]]
                0 <= a < i && 0 <= b < cfg.residency_groups@[a].1.models@.len()
                    && cfg.residency_groups@[a].1.models@[b].0@ == model_id.0@ && cfg.residency_groups@[a].1.keep_hot,
            pinned == exists|a: int, b: int|
                #![trigger cfg.residency_groups@[a].1.models@[b]]
                0 <= a < i && 0 <= b < cfg.residency_groups@[a].1.models@.len()
                    && cfg.residency_groups@[a].1.models@[b].0@ == model_id.0@ && cfg.residency_groups@[a].1.pinned,
        decreases cfg.residency_groups@.len() - i,
    {
        let group = &cfg.residency_groups[i].1;
        let mut contains = false;
        let mut j: usize = 0;
        while j < group.models.len()
            invariant
                j <= group.models@.len(),
                contains == exists|b: int| 0 <= b < j && (#[trigger] group.models@[b]).0@ == model_id.0@,
            decreases group.models@.len() - j,
        {
            if group.models[j].same(model_id) {
                contains = true;
            }
            j = j + 1;
        }
        proof {
            assert(*group == cfg.residency_groups@[i as int].1);
            if contains {
                let b = choose|b: int| 0 <= b < group.models@.len() && (#[trigger] group.models@[b]).0@ == model_id.0@;
                assert(cfg.residency_groups@[i as int].1.models@[b] == group.models@[b]);
            }
            assert forall|b: int| 0 <= b < cfg.residency_groups@[i as int].1.models@.len() && cfg.residency_groups@[i as int].1.models@[b].0@ == model_id.0@ implies contains by {
                assert(cfg.residency_groups@[i as int].1.models@[b] == group.models@[b]);
            }
        }
        if contains {
            keep_hot = keep_hot || group.keep_hot;
            pinned = pinned || group.pinned;
        }
        i = i + 1;
    }
    (keep_hot, pinned)
}

/// Whether some active request of `s` runs model `m`.
pub open spec fn is_serving_model(s: RuntimeSnapshot, m: Seq<char>) -> bool {
    exists|i: int| 0 <= i < s.active_requests@.len() && (#[trigger] s.active_requests@[i]).model_id.0@ == m
}

/// The eviction view of resident `m` of snapshot `s` at `now`: serving when
/// a request runs on it, protected as its groups say, idle since its load.
pub open spec fn eviction_resident_ok(cfg: AnemoiConfig, s: RuntimeSnapshot, m: ModelResident, now: i64, e: EvictionCandidateResident) -> bool {
    &&& e.model_id == m.model_id
    &&& e.runtime_id == s.runtime_id
    &&& e.state == (if is_serving_model(s, m.model_id.0@) { ResidencyState::Serving } else { m.state })
    &&& e.keep_hot == group_flag(cfg, m.model_id.0@, false)
    &&& e.pinned == group_flag(cfg, m.model_id.0@, true)
    &&& e.idle_secs == match m.loaded_since {
        Some(since) => Some(idle_from(since, now)),
        None => None,
    }
}

/// The residents of `snapshots`, flattened in order.
pub open spec fn flat_residents(snapshots: Seq<RuntimeSnapshot>) -> Seq<(RuntimeSnapshot, ModelResident)>
    decreases snapshots.len(),
{
    if snapshots.len() == 0 {
        seq![]
    } else {
        let s = snapshots.last();
        flat_residents(snapshots.drop_last()) + s.residents@.map_values(|m: ModelResident| (s, m))
    }
}

fn serving(s: &RuntimeSnapshot, m: &ModelId) -> (r: bool)
    ensures
        r == is_serving_model(*s, m.0@),
{
    let mut i: usize = 0;
    while i < s.active_requests.len()
        invariant
            i <= s.active_requests@.len(),
            forall|j: int| 0 <= j < i ==> (#[trigger] s.active_requests@[j]).model_id.0@ != m.0@,
        decreases s.active_requests@.len() - i,
    {
        if s.active_requests[i].model_id.same(m) {
            return true;
        }
        i = i + 1;
    }
    false
}

/// Every resident of every snapshot as the eviction planner sees it at
/// `now`, in snapshot order.
pub fn eviction_residents(cfg: &AnemoiConfig, snapshots: &Vec<RuntimeSnapshot>, now: i64) -> (r: Vec<EvictionCandidateResident>)
    ensures
        r@.len() == flat_residents(snapshots@).len(),
        forall|k: int| 0 <= k < r@.len() ==> eviction_resident_ok(
            *cfg,
            flat_residents(snapshots@)[k].0,
            flat_residents(snapshots@)[k].1,
            now,
            #[trigger] r@[k],
        ),
{
    let mut out: Vec<EvictionCandidateResident> = Vec::new();
    let mut i: usize = 0;
    while i < snapshots.len()
        invariant
            i <= snapshots@.len(),
            out@.len() == flat_residents(snapshots@.take(i as int)).len(),
            forall|k: int| 0 <= k < out@.len() ==> eviction_resident_ok(
                *cfg,
                flat_residents(snapshots@.take(i as int))[k].0,
                flat_residents(snapshots@.take(i as int))[k].1,
                now,
                #[trigger] out@[k],
            ),
        decreases snapshots@.len() - i,
    {
        let s = &snapshots[i];
        let ghost base = flat_residents(snapshots@.take(i as int));
        let ghost next = flat_residents(snapshots@.take(i + 1));
        proof {
            assert(snapshots@.take(i + 1).drop_last() =~= snapshots@.take(i as int));
            assert(next == base + s.residents@.map_values(|m: ModelResident| (*s, m)));
        }
        let mut j: usize = 0;
        while j < s.residents.len()
            invariant
                j <= s.residents@.len(),
                out@.len() == base.len() + j,
                next == base + s.residents@.map_values(|m: ModelResident| (*s, m)),
                forall|k: int| 0 <= k < out@.len() ==> eviction_resident_ok(
                    *cfg,
                    next[k].0,
                    next[k].1,
                    now,
                    #[trigger] out@[k],
                ),
            decreases s.residents@.len() - j,
        {
            let m = &s.residents[j];
            let (keep_hot, pinned) = group_protection(cfg, &m.model_id);
            let state = if serving(s, &m.model_id) {
                ResidencyState::Serving
            } else {
                m.state
            };
            let idle = match m.loaded_since {
                Some(since) => Some(idle_secs(since, now)),
                None => None,
            };
            out.push(EvictionCandidateResident {
                model_id: m.model_id.clone(),
                runtime_id: s.runtime_id.clone(),
                state,
                keep_hot,
                pinned,
                idle_secs: idle,
            });
            proof {
                assert(next[base.len() + j] == (*s, *m));
            }
            j = j + 1;
        }
        i = i + 1;
    }
    proof {
        assert(snapshots@.take(snapshots@.len() as int) =~= snapshots@);
    }
    out
}

/// `residents` is the eviction view of every resident of `snapshots` at
/// `now`, in order.
pub open spec fn eviction_view_ok(cfg: AnemoiConfig, snapshots: Seq<RuntimeSnapshot>, now: i64, residents: Seq<EvictionCandidateResident>) -> bool {
    &&& residents.len() == flat_residents(snapshots).len()
    &&& forall|k: int| 0 <= k < residents.len() ==> eviction_resident_ok(
        cfg,
        flat_residents(snapshots)[k].0,
        flat_residents(snapshots)[k].1,
        now,
        #[trigger] residents[k],
    )
}

/// The eviction plan over every resident of `snapshots` at `now`, with
/// protection from the configured groups. Reads state only: nothing is
/// unloaded.
pub fn plan_evictions_for(cfg: &AnemoiConfig, snapshots: &Vec<RuntimeSnapshot>, force: bool, now: i64) -> (r: EvictionPlan)
    ensures
        exists|residents: Seq<EvictionCandidateResident>| {
            &&& #[trigger] eviction_view_ok(*cfg, snapshots@, now, residents)
            &&& ({
                let o = eviction_outcome(residents, force, residents.len() as int);
                &&& crate::sorting::is_stable_sort(r.candidates@.map_values(crate::eviction::candidate_view_of()), o.0, crate::eviction::evict_order())
                &&& r.protected@.map_values(crate::eviction::protected_view_of()) == o.1
                &&& r.blocked@.map_values(crate::eviction::blocked_view_of()) == o.2
                &&& r.reasons@.map_values(crate::eviction::reason_view_of()) == o.3
            })
        },
{
    let residents = eviction_residents(cfg, snapshots, now);
    proof {
        assert(eviction_view_ok(*cfg, snapshots@, now, residents@));
    }
    let plan = plan_evictions(&EvictionRequest { residents: residents.as_slice(), force });
    plan
}

/// The adapter configured for runtime `runtime_id`, if it is configured.
pub fn runtime_adapter_type<'a>(cfg: &'a AnemoiConfig, runtime_id: &str) -> (r: Option<&'a str>)
    ensures
        r is Some == cfg.has_runtime(runtime_id@),
        r matches Some(a) ==> a@ == cfg.runtime(runtime_id@).adapter@,
{
    match cfg.find_runtime(runtime_id) {
        Some(c) => Some(c.adapter.as_str()),
        None => None,
    }
}

/// Whether runtime `runtime_id` is configured with the `mock` adapter.
pub open spec fn is_mock_runtime(cfg: AnemoiConfig, runtime_id: Seq<char>) -> bool {
    cfg.has_runtime(runtime_id) && cfg.runtime(runtime_id).adapter@ == "mock"@
}

/// Whether runtime `runtime_id` is configured with the `mock` adapter.
pub fn runtime_is_mock(cfg: &AnemoiConfig, runtime_id: &str) -> (r: bool)
    ensures
        r == is_mock_runtime(*cfg, runtime_id@),
{
    match runtime_adapter_type(cfg, runtime_id) {
        Some(a) => str_eq(a, "mock"),
        None => false,
    }
}

fn clone_text(m: &Option<String>) -> (r: Option<String>)
    ensures
        r == *m,
{
    match m {
        Some(x) => Some(x.clone()),
        None => None,
    }
}

/// Where chat completions for runtime `runtime_id` are forwarded: its
/// configured base URL and token; `None` when the runtime is not configured
/// or has no base URL.
pub fn runtime_forward_target(cfg: &AnemoiConfig, runtime_id: &str) -> (r: Option<ForwardTarget>)
    ensures
        r is Some == (cfg.has_runtime(runtime_id@) && cfg.runtime(runtime_id@).base_url is Some),
        r matches Some(t) ==> Some(t.base_url) == cfg.runtime(runtime_id@).base_url
            && t.auth_token == cfg.runtime(runtime_id@).auth_token,
{
    match cfg.find_runtime(runtime_id) {
        Some(c) => match &c.base_url {
            Some(base_url) => Some(ForwardTarget { base_url: base_url.clone(), auth_token: clone_text(&c.auth_token) }),
            None => None,
        },
        None => None,
    }
}

/// How one configured runtime is driven: which adapter, and what it needs.
#[derive(Debug, PartialEq, Eq)]
pub enum AdapterChoice {
    Ollama { base_url: String },
    Mock { residents: Vec<ModelResident> },
    LlamaSwap { base_url: String, auth_token: Option<String> },
    LlamaCpp { base_url: String, auth_token: Option<String> },
}

/// The configured base URL, or `fallback`.
pub open spec fn url_or(c: RuntimeConfig, fallback: Seq<char>) -> Seq<char> {
    match c.base_url {
        Some(u) => u@,
        None => fallback,
    }
}

fn url_or_default(c: &RuntimeConfig, fallback: &str) -> (r: String)
    ensures
        r@ == url_or(*c, fallback@),
{
    match &c.base_url {
        Some(u) => u.clone(),
        None => owned(fallback),
    }
}

/// The adapter that drives runtime `c`: Ollama (default URL
/// `http://localhost:11434`), the mock runtime holding the configured
/// initial residents, llama-swap or llama.cpp (default URL
/// `http://localhost:8080`, with the configured token); an unknown adapter
/// name gets an empty mock runtime.
pub open spec fn adapter_choice_ok(c: RuntimeConfig, r: AdapterChoice) -> bool {
    let a = c.adapter@;
    if a == "ollama"@ {
        r matches AdapterChoice::Ollama { base_url } && base_url@ == url_or(c, "http://localhost:11434"@)
    } else if a == "mock"@ {
        r matches AdapterChoice::Mock { residents } && residents@.len() == c.initial_residents@.len()
            && forall|i: int| 0 <= i < residents@.len() ==> #[trigger] residents@[i] == (ModelResident {
                model_id: c.initial_residents@[i].model_id,
                state: c.initial_residents@[i].state,
                vram_mb: c.initial_residents@[i].vram_mb,
                ram_mb: c.initial_residents@[i].ram_mb,
                kv_cache_mb: c.initial_residents@[i].kv_cache_mb,
                loaded_since: None,
            })
    } else if a == "llama_swap"@ {
        r matches AdapterChoice::LlamaSwap { base_url, auth_token } && base_url@ == url_or(c, "http://localhost:8080"@)
            && auth_token == c.auth_token
    } else if a == "llama_cpp"@ || a == "llama_server"@ {
        r matches AdapterChoice::LlamaCpp { base_url, auth_token } && base_url@ == url_or(c, "http://localhost:8080"@)
            && auth_token == c.auth_token
    } else {
        r matches AdapterChoice::Mock { residents } && residents@.len() == 0
    }
}

/// Chooses the adapter that drives configured runtime `c`.
pub fn adapter_for(c: &RuntimeConfig) -> (r: AdapterChoice)
    ensures
        adapter_choice_ok(*c, r),
{
    let a = c.adapter.as_str();
    if str_eq(a, "ollama") {
        AdapterChoice::Ollama { base_url: url_or_default(c, "http://localhost:11434") }
    } else if str_eq(a, "mock") {
        let mut residents: Vec<ModelResident> = Vec::new();
        let mut i: usize = 0;
        while i < c.initial_residents.len()
            invariant
                i <= c.initial_residents@.len(),
                residents@.len() == i,
                forall|k: int| 0 <= k < i ==> #[trigger] residents@[k] == (ModelResident {
                    model_id: c.initial_residents@[k].model_id,
                    state: c.initial_residents@[k].state,
                    vram_mb: c.initial_residents@[k].vram_mb,
                    ram_mb: c.initial_residents@[k].ram_mb,
                    kv_cache_mb: c.initial_residents@[k].kv_cache_mb,
                    loaded_since: None,
                }),
            decreases c.initial_residents@.len() - i,
        {
            residents.push(c.initial_residents[i].clone().into_resident());
            i = i + 1;
        }
        AdapterChoice::Mock { residents }
    } else if str_eq(a, "llama_swap") {
        AdapterChoice::LlamaSwap { base_url: url_or_default(c, "http://localhost:8080"), auth_token: clone_text(&c.auth_token) }
    } else if str_eq(a, "llama_cpp") || str_eq(a, "llama_server") {
        AdapterChoice::LlamaCpp { base_url: url_or_default(c, "http://localhost:8080"), auth_token: clone_text(&c.auth_token) }
    } else {
        AdapterChoice::Mock { residents: Vec::new() }
    }
}

/// The residents listed for runtime `id` in `by_runtime`, by its first entry
/// for that id, or none.
pub open spec fn listed_residents(by_runtime: Seq<(String, Vec<ModelResident>)>, id: Seq<char>) -> Seq<ModelResident> {
    if exists|i: int| 0 <= i < by_runtime.len() && (#[trigger] by_runtime[i]).0@ == id {
        by_runtime[choose|i: int| 0 <= i < by_runtime.len() && by_runtime[i].0@ == id && forall|j: int| 0 <= j < i ==> (#[trigger] by_runtime[j]).0@ != id].1@
    } else {
        seq![]
    }
}

/// The adapter that drives runtime `id` when its residents are given up
/// front: Ollama runtimes stay Ollama (default URL
/// `http://localhost:11434`); every other runtime is a mock runtime holding
/// the residents listed for it.
pub fn adapter_with_residents(id: &str, c: &RuntimeConfig, by_runtime: &Vec<(String, Vec<ModelResident>)>) -> (r: AdapterChoice)
    ensures
        c.adapter@ == "ollama"@ ==> (r matches AdapterChoice::Ollama { base_url } && base_url@ == url_or(*c, "http://localhost:11434"@)),
        c.adapter@ != "ollama"@ ==> (r matches AdapterChoice::Mock { residents } && residents@ == listed_residents(by_runtime@, id@)),
{
    if str_eq(c.adapter.as_str(), "ollama") {
        return AdapterChoice::Ollama { base_url: url_or_default(c, "http://localhost:11434") };
    }
    let mut i: usize = 0;
    while i < by_runtime.len()
        invariant
            i <= by_runtime@.len(),
            c.adapter@ != "ollama"@,
            forall|j: int| 0 <= j < i ==> (#[trigger] by_runtime@[j]).0@ != id@,
        decreases by_runtime@.len() - i,
    {
        if str_eq(by_runtime[i].0.as_str(), id) {
            let residents = by_runtime[i].1.clone();
            proof {
                let c = choose|k: int| 0 <= k < by_runtime@.len() && by_runtime@[k].0@ == id@ && forall|j: int| 0 <= j < k ==> (#[trigger] by_runtime@[j]).0@ != id@;
                if c < i {
                    assert(by_runtime@[c].0@ != id@);
                } else if c > i {
                    assert(by_runtime@[i as int].0@ != id@);
                }
                assert(residents@ =~= by_runtime@[i as int].1@);
            }
            return AdapterChoice::Mock { residents };
        }
        i = i + 1;
    }
    AdapterChoice::Mock { residents: Vec::new() }
}

/// Whether decision `d` raises a background staging intent: it stages a
/// background model on a selected runtime.
pub open spec fn stages(d: Decision) -> bool {
    d.action == DecisionAction::StageBackground && d.selected_runtime is Some && d.background_model is Some
}

/// Queues the background load that decision `d` asks for, as a pending
/// intent carrying the decision's summary; other decisions queue nothing.
pub fn stage_for_decision(worker: &mut StagingWorker, d: &Decision)
    ensures
        !stages(*d) ==> final(worker)@ == old(worker)@,
        stages(*d) ==> {
            &&& final(worker)@.len() == old(worker)@.len() + 1
            &&& final(worker)@.drop_last() == old(worker)@
            &&& final(worker)@.last().decision_id == d.id
            &&& final(worker)@.last().foreground_model == d.selected_model
            &&& Some(final(worker)@.last().background_model) == d.background_model
            &&& Some(final(worker)@.last().target_runtime) == d.selected_runtime
            &&& final(worker)@.last().reason == d.explanation.summary
            &&& final(worker)@.last().state == StagingState::Pending
            &&& final(worker)@.last().last_error is None
        },
{
    if d.action == DecisionAction::StageBackground {
        match (&d.selected_runtime, &d.background_model) {
            (Some(runtime_id), Some(model_id)) => {
                let fg = match &d.selected_model {
                    Some(m) => Some(m.clone()),
                    None => None,
                };
                worker.unblock_and_queue(d.id, fg, model_id.clone(), runtime_id.clone(), d.explanation.summary.clone());
            },
            _ => {},
        }
    }
}

/// The loads of `actions`, in order, by runtime and model.
pub open spec fn loads_of(actions: Seq<RuntimeAction>) -> Seq<(RuntimeId, ModelId)>
    decreases actions.len(),
{
    if actions.len() == 0 {
        seq![]
    } else {
        let rest = loads_of(actions.drop_last());
        let a = actions.last();
        if a.kind == ActionKind::Load && a.model_id is Some {
            rest.push((a.runtime_id, a.model_id.unwrap()))
        } else {
            rest
        }
    }
}

/// The loads an action plan asks a runtime to perform: none for a dry run;
/// refused unless live execution is enabled; otherwise every load action
/// with a model, in order.
pub fn action_plan_loads(plan: &ActionPlan, live: bool) -> (r: Result<Vec<(RuntimeId, ModelId)>, String>)
    ensures
        plan.dry_run ==> (r matches Ok(v) && v@.len() == 0),
        !plan.dry_run && !live ==> (r matches Err(e) && e@ == "Live execution requires ANEMOI_ENABLE_LIVE_EXECUTE=1"@),
        !plan.dry_run && live ==> (r matches Ok(v) && v@ == loads_of(plan.actions@)),
{
    if plan.dry_run {
        return Ok(Vec::new());
    }
    if !live {
        return Err(owned("Live execution requires ANEMOI_ENABLE_LIVE_EXECUTE=1"));
    }
    let mut out: Vec<(RuntimeId, ModelId)> = Vec::new();
    let mut i: usize = 0;
    while i < plan.actions.len()
        invariant
            i <= plan.actions@.len(),
            out@ == loads_of(plan.actions@.take(i as int)),
        decreases plan.actions@.len() - i,
    {
        proof {
            assert(plan.actions@.take(i + 1).drop_last() =~= plan.actions@.take(i as int));
        }
        let a = &plan.actions[i];
        if a.kind == ActionKind::Load {
            match &a.model_id {
                Some(m) => out.push((a.runtime_id.clone(), m.clone())),
                None => {},
            }
        }
        i = i + 1;
    }
    proof {
        assert(plan.actions@.take(plan.actions@.len() as int) =~= plan.actions@);
    }
    Ok(out)
}

/// The unloads an approved eviction plan performs, in order, and whether it
/// stops at an unload on a non-mock runtime while live execution is off.
pub open spec fn eviction_steps(cfg: AnemoiConfig, actions: Seq<RuntimeAction>, live: bool) -> (Seq<(RuntimeId, ModelId)>, bool)
    decreases actions.len(),
{
    if actions.len() == 0 {
        (seq![], false)
    } else {
        let prev = eviction_steps(cfg, actions.drop_last(), live);
        let a = actions.last();
        if prev.1 || a.kind != ActionKind::Unload || a.model_id is None {
            prev
        } else if !is_mock_runtime(cfg, a.runtime_id.0@) && !live {
            (prev.0, true)
        } else {
            (prev.0.push((a.runtime_id, a.model_id.unwrap())), false)
        }
    }
}

/// The unloads of an eviction plan: none for a dry-run or unapproved plan;
/// otherwise the unload actions in order, up to the first on a non-mock
/// runtime when live execution is off (the flag then says the plan was
/// refused there).
pub fn eviction_unloads(cfg: &AnemoiConfig, plan: &ActionPlan, approved: bool, live: bool) -> (r: (Vec<(RuntimeId, ModelId)>, bool))
    ensures
        plan.dry_run || !approved ==> r.0@.len() == 0 && !r.1,
        !plan.dry_run && approved ==> (r.0@, r.1) == eviction_steps(*cfg, plan.actions@, live),
{
    let mut out: Vec<(RuntimeId, ModelId)> = Vec::new();
    if plan.dry_run || !approved {
        return (out, false);
    }
    let mut i: usize = 0;
    while i < plan.actions.len()
        invariant
            i <= plan.actions@.len(),
            !plan.dry_run && approved,
            (out@, false) == eviction_steps(*cfg, plan.actions@.take(i as int), live),
        decreases plan.actions@.len() - i,
    {
        proof {
            assert(plan.actions@.take(i + 1).drop_last() =~= plan.actions@.take(i as int));
        }
        let a = &plan.actions[i];
        if a.kind == ActionKind::Unload {
            match &a.model_id {
                Some(m) => {
                    if !runtime_is_mock(cfg, a.runtime_id.0.as_str()) && !live {
                        proof {
                            lemma_eviction_steps_stop(*cfg, plan.actions@, live, i as int + 1);
                            assert(plan.actions@.take(plan.actions@.len() as int) =~= plan.actions@);
                        }
                        return (out, true);
                    }
                    out.push((a.runtime_id.clone(), m.clone()));
                },
                None => {},
            }
        }
        i = i + 1;
    }
    proof {
        assert(plan.actions@.take(plan.actions@.len() as int) =~= plan.actions@);
    }
    (out, false)
}

/// Once the eviction steps stop, later actions change nothing.
proof fn lemma_eviction_steps_stop(cfg: AnemoiConfig, actions: Seq<RuntimeAction>, live: bool, n: int)
    requires
        0 <= n <= actions.len(),
        eviction_steps(cfg, actions.take(n), live).1,
    ensures
        eviction_steps(cfg, actions, live) == eviction_steps(cfg, actions.take(n), live),
    decreases actions.len() - n,
{
    if n < actions.len() {
        assert(actions.take(n + 1).drop_last() =~= actions.take(n));
        lemma_eviction_steps_stop(cfg, actions, live, n + 1);
    } else {
        assert(actions.take(n) =~= actions);
    }
}

/// The pending intents the staging tick may carry out: all of them when
/// live execution is enabled, otherwise those on mock runtimes.
pub fn staging_runnable(cfg: &AnemoiConfig, pending: &Vec<StagingIntent>, live: bool) -> (r: Vec<StagingIntent>)
    ensures
        r@ == pending@.filter(|it: StagingIntent| live || is_mock_runtime(*cfg, it.target_runtime.0@)),
{
    let ghost p = |it: StagingIntent| live || is_mock_runtime(*cfg, it.target_runtime.0@);
    let mut out: Vec<StagingIntent> = Vec::new();
    let mut i: usize = 0;
    while i < pending.len()
        invariant
            i <= pending@.len(),
            p == (|it: StagingIntent| live || is_mock_runtime(*cfg, it.target_runtime.0@)),
            out@ == pending@.take(i as int).filter(p),
        decreases pending@.len() - i,
    {
        proof {
            assert(pending@.take(i + 1).drop_last() =~= pending@.take(i as int));
            reveal(Seq::filter);
        }
        if live || runtime_is_mock(cfg, pending[i].target_runtime.0.as_str()) {
            out.push(pending[i].clone());
        }
        i = i + 1;
    }
    proof {
        assert(pending@.take(pending@.len() as int) =~= pending@);
    }
    out
}

/// What `POST /execute` handed off to a runtime.
#[derive(Debug, PartialEq, Eq)]
pub struct ExecuteHandoff {
    pub load_requested: bool,
    pub full_inference_forwarded: bool,
    pub message: String,
}

/// The model `POST /execute` loads for decision `d`: outside a dry run, the
/// selected model on the selected runtime when that runtime is a mock.
pub fn execute_load_target(cfg: &AnemoiConfig, d: &Decision, dry_run: bool) -> (r: Option<(RuntimeId, ModelId)>)
    ensures
        r is Some == (!dry_run && d.selected_runtime is Some && d.selected_model is Some
            && is_mock_runtime(*cfg, d.selected_runtime.unwrap().0@)),
        r matches Some(t) ==> Some(t.0) == d.selected_runtime && Some(t.1) == d.selected_model,
{
    if dry_run {
        return None;
    }
    match (&d.selected_runtime, &d.selected_model) {
        (Some(rt), Some(m)) => {
            if runtime_is_mock(cfg, rt.0.as_str()) {
                Some((rt.clone(), m.clone()))
            } else {
                None
            }
        },
        _ => None,
    }
}

/// The handoff `POST /execute` reports: nothing is forwarded for full
/// inference; the message says whether the plan was a dry run.
pub fn execute_handoff(dry_run: bool, load_requested: bool) -> (r: ExecuteHandoff)
    ensures
        r.load_requested == load_requested,
        !r.full_inference_forwarded,
        r.message@ == if dry_run {
            "v1 execute performs dry-run action plan and model-load handoff only"@
        } else {
            "v1 execute performs decision logging and model-load handoff only"@
        },
{
    let message = if dry_run {
        owned("v1 execute performs dry-run action plan and model-load handoff only")
    } else {
        owned("v1 execute performs decision logging and model-load handoff only")
    };
    ExecuteHandoff { load_requested, full_inference_forwarded: false, message }
}

/// What `POST /execute` settles for a decision before it touches a runtime:
/// the action plan it reports, and the load it asks a runtime for, if any.
#[derive(Debug)]
pub struct ExecutePlan {
    pub dry_run: bool,
    pub action_plan: ActionPlan,
    pub load: Option<(RuntimeId, ModelId)>,
}

/// Plans `POST /execute` for decision `d`. Unless live execution is enabled
/// the plan is a dry run and no runtime is asked to load anything.
pub fn plan_execute(cfg: &AnemoiConfig, d: &Decision, live: bool) -> (r: ExecutePlan)
    ensures
        r.dry_run == !live,
        r.action_plan.decision_id == d.id,
        r.action_plan.dry_run == !live,
        plan_matches(*cfg, *d, r.action_plan.actions@),
        r.load is Some == (live && d.selected_runtime is Some && d.selected_model is Some
            && is_mock_runtime(*cfg, d.selected_runtime.unwrap().0@)),
        r.load matches Some(t) ==> Some(t.0) == d.selected_runtime && Some(t.1) == d.selected_model,
        !live ==> r.load is None,
{
    let dry_run = !live;
    let action_plan = generate_action_plan(cfg, d, dry_run);
    let load = execute_load_target(cfg, d, dry_run);
    ExecutePlan { dry_run, action_plan, load }
}

/// The handoff `POST /execute` reports once the planned load, if any, was
/// tried: a load counts as requested only when one was planned and the
/// runtime accepted it, and nothing is ever forwarded for full inference.
pub fn finish_execute(plan: &ExecutePlan, load_accepted: bool) -> (r: ExecuteHandoff)
    ensures
        r.load_requested == (plan.load is Some && load_accepted),
        plan.load is None ==> !r.load_requested,
        !r.full_inference_forwarded,
        r.message@ == if plan.dry_run {
            "v1 execute performs dry-run action plan and model-load handoff only"@
        } else {
            "v1 execute performs decision logging and model-load handoff only"@
        },
{
    let requested = plan.load.is_some() && load_accepted;
    execute_handoff(plan.dry_run, requested)
}

/// Only loads change a runtime: a plan has a mutating step exactly when it
/// promotes or cold-loads a selected model or stages a background load, and
/// every mutating step is a load.
pub proof fn lemma_plan_mutates_only_by_loading(cfg: AnemoiConfig, d: Decision, actions: Seq<RuntimeAction>)
    requires
        plan_matches(cfg, d, actions),
    ensures
        (exists|i: int| 0 <= i < actions.len() && (#[trigger] actions[i]).is_mutating) <==> (
            ((d.action == DecisionAction::PromoteWarm || d.action == DecisionAction::ColdLoad)
                && d.selected_runtime is Some && d.selected_model is Some) || stages(d)),
        forall|i: int| 0 <= i < actions.len() && (#[trigger] actions[i]).is_mutating ==> actions[i].kind == ActionKind::Load,
{
    if exists|i: int| 0 <= i < actions.len() && (#[trigger] actions[i]).is_mutating {
        let i = choose|i: int| 0 <= i < actions.len() && (#[trigger] actions[i]).is_mutating;
        assert(i == 0);
    }
    if ((d.action == DecisionAction::PromoteWarm || d.action == DecisionAction::ColdLoad)
        && d.selected_runtime is Some && d.selected_model is Some) || stages(d) {
        assert(actions[0].is_mutating);
    }
}

/// Reusing a hot model plans nothing that changes a runtime.
pub proof fn lemma_reuse_hot_plan_is_inert(cfg: AnemoiConfig, d: Decision, actions: Seq<RuntimeAction>)
    requires
        plan_matches(cfg, d, actions),
        d.action == DecisionAction::ReuseHot,
    ensures
        forall|i: int| 0 <= i < actions.len() ==> !(#[trigger] actions[i]).is_mutating,
{
}

/// `i` is the first of the first `n` candidates with the highest total.
pub open spec fn best_in_prefix(request: InferenceRequest, cands: Seq<Candidate>, ksh: bool, n: int, i: int) -> bool {
    &&& 0 <= i < n
    &&& forall|j: int| 0 <= j < n ==> cand_total(request, #[trigger] cands[j], ksh) <= cand_total(request, cands[i], ksh)
    &&& forall|j: int| 0 <= j < i ==> cand_total(request, #[trigger] cands[j], ksh) < cand_total(request, cands[i], ksh)
}

proof fn lemma_best_prefix(request: InferenceRequest, cands: Seq<Candidate>, ksh: bool, n: int)
    requires
        1 <= n <= cands.len(),
    ensures
        exists|i: int| #[trigger] best_in_prefix(request, cands, ksh, n, i),
    decreases n,
{
    if n == 1 {
        assert(best_in_prefix(request, cands, ksh, 1, 0));
    } else {
        lemma_best_prefix(request, cands, ksh, n - 1);
        let i = choose|i: int| #[trigger] best_in_prefix(request, cands, ksh, n - 1, i);
        if cand_total(request, cands[n - 1], ksh) > cand_total(request, cands[i], ksh) {
            assert(best_in_prefix(request, cands, ksh, n, n - 1));
        } else {
            assert(best_in_prefix(request, cands, ksh, n, i));
        }
    }
}

/// A decision to stage a model in the background always names the runtime
/// and the background model, so deciding it queues a staging intent: the
/// scheduler's other answers are the actions of single candidates, and no
/// candidate's action is a staging.
pub proof fn lemma_staging_decision_queues_intent(
    d: Decision,
    request: InferenceRequest,
    cands: Seq<Candidate>,
    rejected: Seq<RejectedOption>,
    o: (Seq<CandidateKey>, Seq<RejectedView>),
    cfg: AnemoiConfig,
    snaps: Seq<RuntimeSnapshot>,
)
    requires
        outcome_holds(cands, rejected, o, cfg, snaps),
        decision_matches(d, request, cands, rejected, cfg),
        d.action == DecisionAction::StageBackground,
    ensures
        stages(d),
{
    let ksh = cfg.continuity.keep_small_worker_hot;
    if cands.len() > 0 && !crate::scheduler::stages_background(request, cands, cfg) {
        lemma_best_prefix(request, cands, ksh, cands.len() as int);
        let i = choose|i: int| #[trigger] best_in_prefix(request, cands, ksh, cands.len() as int, i);
        assert(is_first_best(request, cands, ksh, false, i));
        let b = best_index(request, cands, ksh, false);
        assert(is_first_best(request, cands, ksh, false, b));
        assert(candidate_ok(cands[b], o.0[b], cfg, snaps));
    }
}

} // verus!
