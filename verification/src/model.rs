//! The shared vocabulary of the control plane: identifiers, residency states,
//! requests, runtime snapshots, decisions and action plans.
use vstd::prelude::*;
use crate::clock::{fresh_uuid, uuid_hyphenated, uuid_text};

verus! {

/// Identifier of one inference request.
#[derive(Debug, PartialEq, Eq, Hash)]
pub struct RequestId(pub String);

/// Identifier of a governance domain (for example `coding`).
#[derive(Debug, PartialEq, Eq, Hash)]
pub struct DomainId(pub String);

/// Identifier of a model.
#[derive(Debug, PartialEq, Eq, Hash)]
pub struct ModelId(pub String);

/// Identifier of a runtime (an inference server).
#[derive(Debug, PartialEq, Eq, Hash)]
pub struct RuntimeId(pub String);

/// Identifier of a residency group.
#[derive(Debug, PartialEq, Eq, Hash)]
pub struct ResidencyGroupId(pub String);

impl RequestId {
    /// A fresh request id: the text of a random UUID.
    pub fn new() -> (r: Self)
        ensures
            exists|u: u128| r.0@ == #[trigger] uuid_hyphenated(u),
    {
        RequestId(uuid_text(fresh_uuid()))
    }
}

impl Clone for RequestId {
    fn clone(&self) -> (r: Self)
        ensures
            r == *self,
    {
        RequestId(self.0.clone())
    }
}

impl Clone for DomainId {
    fn clone(&self) -> (r: Self)
        ensures
            r == *self,
    {
        DomainId(self.0.clone())
    }
}

impl Clone for ModelId {
    fn clone(&self) -> (r: Self)
        ensures
            r == *self,
    {
        ModelId(self.0.clone())
    }
}

impl Clone for RuntimeId {
    fn clone(&self) -> (r: Self)
        ensures
            r == *self,
    {
        RuntimeId(self.0.clone())
    }
}

impl Clone for ResidencyGroupId {
    fn clone(&self) -> (r: Self)
        ensures
            r == *self,
    {
        ResidencyGroupId(self.0.clone())
    }
}

impl DomainId {
    /// Whether two domain ids name the same domain.
    pub fn same(&self, other: &Self) -> (r: bool)
        ensures
            r == (self.0@ == other.0@),
    {
        self.0 == other.0
    }
}

impl ModelId {
    /// Whether two model ids name the same model.
    pub fn same(&self, other: &Self) -> (r: bool)
        ensures
            r == (self.0@ == other.0@),
    {
        self.0 == other.0
    }
}

impl RuntimeId {
    /// Whether two runtime ids name the same runtime.
    pub fn same(&self, other: &Self) -> (r: bool)
        ensures
            r == (self.0@ == other.0@),
    {
        self.0 == other.0
    }
}

impl ResidencyGroupId {
    /// Whether two group ids name the same residency group.
    pub fn same(&self, other: &Self) -> (r: bool)
        ensures
            r == (self.0@ == other.0@),
    {
        self.0 == other.0
    }
}

/// Where a model currently lives on a runtime.
#[derive(Clone, Copy, Debug, PartialEq, Eq, Structural)]
pub enum ResidencyState {
    Cold,
    Loading,
    WarmCpu,
    Partial,
    HotGpu,
    Serving,
    Draining,
    Evicting,
    Failed,
}

impl ResidencyState {
    pub open spec fn spec_is_resident(self) -> bool {
        !(self is Cold || self is Failed)
    }

    pub open spec fn spec_reuse_bonus(self) -> i32 {
        match self {
            ResidencyState::HotGpu | ResidencyState::Serving => 60,
            ResidencyState::WarmCpu => 35,
            ResidencyState::Partial | ResidencyState::Loading => 15,
            ResidencyState::Draining | ResidencyState::Evicting => -10i32,
            ResidencyState::Cold | ResidencyState::Failed => 0,
        }
    }

    /// Whether the model occupies the runtime in this state (everything but
    /// `Cold` and `Failed`).
    pub fn is_resident(&self) -> (r: bool)
        ensures
            r == self.spec_is_resident(),
    {
        !matches!(self, ResidencyState::Cold | ResidencyState::Failed)
    }

    /// Score bonus for reusing a model in this state.
    pub fn reuse_bonus(&self) -> (r: i32)
        ensures
            r == self.spec_reuse_bonus(),
    {
        match self {
            ResidencyState::HotGpu | ResidencyState::Serving => 60,
            ResidencyState::WarmCpu => 35,
            ResidencyState::Partial | ResidencyState::Loading => 15,
            ResidencyState::Draining | ResidencyState::Evicting => -10i32,
            ResidencyState::Cold | ResidencyState::Failed => 0,
        }
    }
}

/// The debug name of a residency state (`HotGpu`, `WarmCpu`, ...).
pub open spec fn residency_state_debug(s: ResidencyState) -> Seq<char> {
    match s {
        ResidencyState::Cold => "Cold"@,
        ResidencyState::Loading => "Loading"@,
        ResidencyState::WarmCpu => "WarmCpu"@,
        ResidencyState::Partial => "Partial"@,
        ResidencyState::HotGpu => "HotGpu"@,
        ResidencyState::Serving => "Serving"@,
        ResidencyState::Draining => "Draining"@,
        ResidencyState::Evicting => "Evicting"@,
        ResidencyState::Failed => "Failed"@,
    }
}

/// The wire (snake_case) name of a residency state (`hot_gpu`, `warm_cpu`, ...).
pub open spec fn residency_state_wire(s: ResidencyState) -> Seq<char> {
    match s {
        ResidencyState::Cold => "cold"@,
        ResidencyState::Loading => "loading"@,
        ResidencyState::WarmCpu => "warm_cpu"@,
        ResidencyState::Partial => "partial"@,
        ResidencyState::HotGpu => "hot_gpu"@,
        ResidencyState::Serving => "serving"@,
        ResidencyState::Draining => "draining"@,
        ResidencyState::Evicting => "evicting"@,
        ResidencyState::Failed => "failed"@,
    }
}

/// The debug name of a residency state.
pub fn residency_state_debug_name(s: ResidencyState) -> (r: &'static str)
    ensures
        r@ == residency_state_debug(s),
{
    match s {
        ResidencyState::Cold => "Cold",
        ResidencyState::Loading => "Loading",
        ResidencyState::WarmCpu => "WarmCpu",
        ResidencyState::Partial => "Partial",
        ResidencyState::HotGpu => "HotGpu",
        ResidencyState::Serving => "Serving",
        ResidencyState::Draining => "Draining",
        ResidencyState::Evicting => "Evicting",
        ResidencyState::Failed => "Failed",
    }
}

/// The wire name of a residency state, as it is stored and reported.
pub fn residency_state_str(s: ResidencyState) -> (r: &'static str)
    ensures
        r@ == residency_state_wire(s),
{
    match s {
        ResidencyState::Cold => "cold",
        ResidencyState::Loading => "loading",
        ResidencyState::WarmCpu => "warm_cpu",
        ResidencyState::Partial => "partial",
        ResidencyState::HotGpu => "hot_gpu",
        ResidencyState::Serving => "serving",
        ResidencyState::Draining => "draining",
        ResidencyState::Evicting => "evicting",
        ResidencyState::Failed => "failed",
    }
}

/// How urgently a request wants an answer.
#[derive(Clone, Copy, Debug, PartialEq, Eq, Structural)]
pub enum ExecutionMode {
    Interactive,
    Batch,
    Background,
}

/// The minimum quality a request accepts.
#[derive(Debug, PartialEq, Eq)]
pub struct QualityFloor {
    pub minimum_parameter_class: Option<String>,
}

impl Clone for QualityFloor {
    fn clone(&self) -> (r: Self)
        ensures
            r == *self,
    {
        QualityFloor { minimum_parameter_class: self.minimum_parameter_class.clone() }
    }
}

/// A request for an inference placement decision.
#[derive(Debug, PartialEq, Eq)]
pub struct InferenceRequest {
    pub id: RequestId,
    pub domain: DomainId,
    pub mode: ExecutionMode,
    pub prompt_tokens_estimate: Option<u32>,
    pub max_output_tokens: Option<u32>,
    pub latency_budget_ms: Option<u64>,
    pub quality_floor: Option<QualityFloor>,
}

impl Clone for InferenceRequest {
    fn clone(&self) -> (r: Self)
        ensures
            r == *self,
    {
        InferenceRequest {
            id: self.id.clone(),
            domain: self.domain.clone(),
            mode: self.mode,
            prompt_tokens_estimate: self.prompt_tokens_estimate,
            max_output_tokens: self.max_output_tokens,
            latency_budget_ms: self.latency_budget_ms,
            quality_floor: self.quality_floor.clone(),
        }
    }
}

/// A request to run a prompt on a model.
#[derive(Debug, PartialEq, Eq)]
pub struct ExecutionRequest {
    pub request_id: RequestId,
    pub model_id: ModelId,
    pub prompt: Option<String>,
}

/// What the control plane knows about a model.
#[derive(Debug, PartialEq, Eq)]
pub struct ModelProfile {
    pub id: ModelId,
    pub family: String,
    pub parameter_class: String,
    pub context_window: Option<u32>,
    pub vram_required_mb: Option<u64>,
    pub ram_required_mb: Option<u64>,
    pub cold_load_estimate_ms: Option<u64>,
    pub supported_runtimes: Vec<RuntimeId>,
    /// Whether the model supports SSE streaming responses. `None` means
    /// unknown (treat as permissive).
    pub supports_streaming: Option<bool>,
}

impl ModelProfile {
    /// Field-wise equality, the runtime list compared by its contents.
    pub open spec fn same(self, o: Self) -> bool {
        &&& self.id == o.id
        &&& self.family == o.family
        &&& self.parameter_class == o.parameter_class
        &&& self.context_window == o.context_window
        &&& self.vram_required_mb == o.vram_required_mb
        &&& self.ram_required_mb == o.ram_required_mb
        &&& self.cold_load_estimate_ms == o.cold_load_estimate_ms
        &&& self.supported_runtimes@ == o.supported_runtimes@
        &&& self.supports_streaming == o.supports_streaming
    }
}

impl Clone for ModelProfile {
    fn clone(&self) -> (r: Self)
        ensures
            r.same(*self),
    {
        let runtimes = self.supported_runtimes.clone();
        assert(runtimes@ =~= self.supported_runtimes@);
        ModelProfile {
            id: self.id.clone(),
            family: self.family.clone(),
            parameter_class: self.parameter_class.clone(),
            context_window: self.context_window,
            vram_required_mb: self.vram_required_mb,
            ram_required_mb: self.ram_required_mb,
            cold_load_estimate_ms: self.cold_load_estimate_ms,
            supported_runtimes: runtimes,
            supports_streaming: self.supports_streaming,
        }
    }
}

/// A set of models governed together.
#[derive(Debug, PartialEq, Eq)]
pub struct ResidencyGroup {
    pub id: ResidencyGroupId,
    pub purpose: Vec<String>,
    pub models: Vec<ModelId>,
    pub keep_hot: bool,
    pub allow_background_load: bool,
    /// Pinned groups are protected from eviction unless a force policy
    /// explicitly overrides protection.
    pub pinned: bool,
}

/// Memory reported by a runtime, in megabytes.
#[derive(Debug, PartialEq, Eq, Default)]
pub struct RuntimeMemorySnapshot {
    pub vram_total_mb: Option<u64>,
    pub vram_used_mb: Option<u64>,
    pub ram_total_mb: Option<u64>,
    pub ram_used_mb: Option<u64>,
}

impl Clone for RuntimeMemorySnapshot {
    fn clone(&self) -> (r: Self)
        ensures
            r == *self,
    {
        RuntimeMemorySnapshot {
            vram_total_mb: self.vram_total_mb,
            vram_used_mb: self.vram_used_mb,
            ram_total_mb: self.ram_total_mb,
            ram_used_mb: self.ram_used_mb,
        }
    }
}

impl RuntimeMemorySnapshot {
    /// Memory with no figure reported.
    pub open spec fn none_reported() -> Self {
        RuntimeMemorySnapshot {
            vram_total_mb: None,
            vram_used_mb: None,
            ram_total_mb: None,
            ram_used_mb: None,
        }
    }

    /// The snapshot with nothing reported.
    pub fn unknown() -> (r: Self)
        ensures
            r == Self::none_reported(),
            r.vram_total_mb is None,
            r.vram_used_mb is None,
            r.ram_total_mb is None,
            r.ram_used_mb is None,
    {
        RuntimeMemorySnapshot {
            vram_total_mb: None,
            vram_used_mb: None,
            ram_total_mb: None,
            ram_used_mb: None,
        }
    }

    /// The inputs on which the percentage is computed without a panic: when
    /// both figures are reported, the total is positive and `used * 100`
    /// fits in a `u64`.
    pub open spec fn pressure_computable(self) -> bool {
        (self.vram_used_mb is Some && self.vram_total_mb is Some) ==> (
        self.vram_total_mb->0 > 0 && self.vram_used_mb->0 * 100 <= u64::MAX)
    }

    pub open spec fn spec_pressure_percent(self) -> Option<u64> {
        match (self.vram_used_mb, self.vram_total_mb) {
            (Some(used), Some(total)) => if total > 0 {
                Some(((used * 100) / (total as int)) as u64)
            } else {
                None
            },
            _ => None,
        }
    }

    /// VRAM utilization as a whole percentage (`used * 100 / total`, rounded
    /// down), or `None` when either figure is missing.
    pub fn pressure_percent(&self) -> (r: Option<u64>)
        requires
            self.pressure_computable(),
        ensures
            r == self.spec_pressure_percent(),
    {
        let used = match self.vram_used_mb {
            Some(u) => u,
            None => return None,
        };
        let total = match self.vram_total_mb {
            Some(t) => t,
            None => return None,
        };
        if total > 0 {
            Some((used * 100) / total)
        } else {
            None
        }
    }
}

/// A model observed on a runtime. Times are milliseconds since the Unix epoch.
#[derive(Debug, PartialEq, Eq)]
pub struct ModelResident {
    pub model_id: ModelId,
    pub state: ResidencyState,
    pub vram_mb: Option<u64>,
    pub ram_mb: Option<u64>,
    pub kv_cache_mb: Option<u64>,
    pub loaded_since: Option<i64>,
}

impl Clone for ModelResident {
    fn clone(&self) -> (r: Self)
        ensures
            r == *self,
    {
        ModelResident {
            model_id: self.model_id.clone(),
            state: self.state,
            vram_mb: self.vram_mb,
            ram_mb: self.ram_mb,
            kv_cache_mb: self.kv_cache_mb,
            loaded_since: self.loaded_since,
        }
    }
}

/// A request running on a runtime; `started_at` is in milliseconds since the
/// Unix epoch.
#[derive(Debug, PartialEq, Eq)]
pub struct ActiveExecution {
    pub request_id: RequestId,
    pub model_id: ModelId,
    pub started_at: i64,
}

impl Clone for ActiveExecution {
    fn clone(&self) -> (r: Self)
        ensures
            r == *self,
    {
        ActiveExecution {
            request_id: self.request_id.clone(),
            model_id: self.model_id.clone(),
            started_at: self.started_at,
        }
    }
}

/// What one inspection of a runtime observed.
#[derive(Debug, PartialEq, Eq)]
pub struct RuntimeSnapshot {
    pub runtime_id: RuntimeId,
    pub available: bool,
    pub residents: Vec<ModelResident>,
    /// Models the runtime reports as configured. Configuration is not
    /// evidence of residency.
    pub configured_models: Vec<ModelId>,
    pub memory: RuntimeMemorySnapshot,
    pub active_requests: Vec<ActiveExecution>,
}

impl RuntimeSnapshot {
    /// Field-wise equality, lists compared by their contents.
    pub open spec fn same(self, o: Self) -> bool {
        &&& self.runtime_id == o.runtime_id
        &&& self.available == o.available
        &&& self.residents@ == o.residents@
        &&& self.configured_models@ == o.configured_models@
        &&& self.memory == o.memory
        &&& self.active_requests@ == o.active_requests@
    }
}

impl Clone for RuntimeSnapshot {
    fn clone(&self) -> (r: Self)
        ensures
            r.same(*self),
    {
        let residents = self.residents.clone();
        let configured = self.configured_models.clone();
        let active = self.active_requests.clone();
        assert(residents@ =~= self.residents@);
        assert(configured@ =~= self.configured_models@);
        assert(active@ =~= self.active_requests@);
        RuntimeSnapshot {
            runtime_id: self.runtime_id.clone(),
            available: self.available,
            residents,
            configured_models: configured,
            memory: self.memory.clone(),
            active_requests: active,
        }
    }
}

impl RuntimeSnapshot {
    /// The snapshot of a runtime that could not be reached: unavailable, with
    /// nothing observed.
    pub fn unavailable(runtime_id: RuntimeId) -> (r: Self)
        ensures
            r.runtime_id == runtime_id,
            !r.available,
            r.residents@.len() == 0,
            r.configured_models@.len() == 0,
            r.memory == (RuntimeMemorySnapshot {
                vram_total_mb: None,
                vram_used_mb: None,
                ram_total_mb: None,
                ram_used_mb: None,
            }),
            r.active_requests@.len() == 0,
    {
        RuntimeSnapshot {
            runtime_id,
            available: false,
            residents: Vec::new(),
            configured_models: Vec::new(),
            memory: RuntimeMemorySnapshot::unknown(),
            active_requests: Vec::new(),
        }
    }
}

/// What the scheduler decided to do with a request.
#[derive(Clone, Copy, Debug, PartialEq, Eq, Structural)]
pub enum DecisionAction {
    ReuseHot,
    PromoteWarm,
    ColdLoad,
    StageBackground,
    Downgrade,
    Defer,
    Deny,
}

/// The debug name of a decision action (`ReuseHot`, ...).
pub open spec fn decision_action_debug(a: DecisionAction) -> Seq<char> {
    match a {
        DecisionAction::ReuseHot => "ReuseHot"@,
        DecisionAction::PromoteWarm => "PromoteWarm"@,
        DecisionAction::ColdLoad => "ColdLoad"@,
        DecisionAction::StageBackground => "StageBackground"@,
        DecisionAction::Downgrade => "Downgrade"@,
        DecisionAction::Defer => "Defer"@,
        DecisionAction::Deny => "Deny"@,
    }
}

/// The wire (snake_case) name of a decision action (`reuse_hot`, ...).
pub open spec fn decision_action_wire(a: DecisionAction) -> Seq<char> {
    match a {
        DecisionAction::ReuseHot => "reuse_hot"@,
        DecisionAction::PromoteWarm => "promote_warm"@,
        DecisionAction::ColdLoad => "cold_load"@,
        DecisionAction::StageBackground => "stage_background"@,
        DecisionAction::Downgrade => "downgrade"@,
        DecisionAction::Defer => "defer"@,
        DecisionAction::Deny => "deny"@,
    }
}

/// The debug name of a decision action.
pub fn decision_action_debug_name(a: DecisionAction) -> (r: &'static str)
    ensures
        r@ == decision_action_debug(a),
{
    match a {
        DecisionAction::ReuseHot => "ReuseHot",
        DecisionAction::PromoteWarm => "PromoteWarm",
        DecisionAction::ColdLoad => "ColdLoad",
        DecisionAction::StageBackground => "StageBackground",
        DecisionAction::Downgrade => "Downgrade",
        DecisionAction::Defer => "Defer",
        DecisionAction::Deny => "Deny",
    }
}

/// The wire name of a decision action, as the gateway reports it in the
/// `x-anemoi-action` header.
pub fn decision_action_str(a: DecisionAction) -> (r: &'static str)
    ensures
        r@ == decision_action_wire(a),
{
    match a {
        DecisionAction::ReuseHot => "reuse_hot",
        DecisionAction::PromoteWarm => "promote_warm",
        DecisionAction::ColdLoad => "cold_load",
        DecisionAction::StageBackground => "stage_background",
        DecisionAction::Downgrade => "downgrade",
        DecisionAction::Defer => "defer",
        DecisionAction::Deny => "deny",
    }
}

/// One labelled term of a decision score.
#[derive(Debug, PartialEq, Eq)]
pub struct ScoreContribution {
    pub label: String,
    pub value: i32,
}

impl Clone for ScoreContribution {
    fn clone(&self) -> (r: Self)
        ensures
            r == *self,
    {
        ScoreContribution { label: self.label.clone(), value: self.value }
    }
}

/// A decision score: the total and the contributions that make it up, in order.
#[derive(Debug, PartialEq, Eq)]
pub struct DecisionScore {
    pub total: i32,
    pub contributions: Vec<ScoreContribution>,
}

impl Clone for DecisionScore {
    fn clone(&self) -> (r: Self)
        ensures
            r.total == self.total,
            r.contributions@ == self.contributions@,
    {
        let c = self.contributions.clone();
        assert(c@ =~= self.contributions@);
        DecisionScore { total: self.total, contributions: c }
    }
}

impl DecisionScore {
    /// The empty score: total zero, no contributions.
    pub fn empty() -> (r: Self)
        ensures
            r.total == 0,
            r.contributions@.len() == 0,
    {
        DecisionScore { total: 0, contributions: Vec::new() }
    }
}

/// One structured reason behind a decision.
#[derive(Debug, PartialEq, Eq)]
pub struct DecisionReason {
    pub code: String,
    pub detail: String,
    pub impact: i32,
}

impl Clone for DecisionReason {
    fn clone(&self) -> (r: Self)
        ensures
            r == *self,
    {
        DecisionReason { code: self.code.clone(), detail: self.detail.clone(), impact: self.impact }
    }
}

/// A model/runtime option the scheduler could not use, and why.
#[derive(Debug, PartialEq, Eq)]
pub struct RejectedOption {
    pub model_id: Option<ModelId>,
    pub runtime_id: Option<RuntimeId>,
    pub reason: String,
}

impl Clone for RejectedOption {
    fn clone(&self) -> (r: Self)
        ensures
            r == *self,
    {
        RejectedOption {
            model_id: self.model_id.clone(),
            runtime_id: self.runtime_id.clone(),
            reason: self.reason.clone(),
        }
    }
}

/// The human-readable account of a decision.
#[derive(Debug, PartialEq, Eq)]
pub struct Explanation {
    pub summary: String,
    pub reasons: Vec<DecisionReason>,
    pub rejected_options: Vec<RejectedOption>,
}

impl Explanation {
    /// Field-wise equality, lists compared by their contents.
    pub open spec fn same(self, o: Self) -> bool {
        &&& self.summary == o.summary
        &&& self.reasons@ == o.reasons@
        &&& self.rejected_options@ == o.rejected_options@
    }
}

impl Clone for Explanation {
    fn clone(&self) -> (r: Self)
        ensures
            r.same(*self),
    {
        let reasons = self.reasons.clone();
        let rejected = self.rejected_options.clone();
        assert(reasons@ =~= self.reasons@);
        assert(rejected@ =~= self.rejected_options@);
        Explanation { summary: self.summary.clone(), reasons, rejected_options: rejected }
    }
}

/// A placement decision. `id` is the decision's UUID as a 128-bit integer and
/// `created_at` is in milliseconds since the Unix epoch.
#[derive(Debug, PartialEq, Eq)]
pub struct Decision {
    pub id: u128,
    pub request_id: RequestId,
    pub action: DecisionAction,
    pub selected_model: Option<ModelId>,
    pub selected_runtime: Option<RuntimeId>,
    pub selected_group: Option<ResidencyGroupId>,
    pub background_model: Option<ModelId>,
    pub score: DecisionScore,
    pub explanation: Explanation,
    pub created_at: i64,
}

impl Decision {
    /// Field-wise equality, lists compared by their contents.
    pub open spec fn same(self, o: Self) -> bool {
        &&& self.id == o.id
        &&& self.request_id == o.request_id
        &&& self.action == o.action
        &&& self.selected_model == o.selected_model
        &&& self.selected_runtime == o.selected_runtime
        &&& self.selected_group == o.selected_group
        &&& self.background_model == o.background_model
        &&& self.score.total == o.score.total
        &&& self.score.contributions@ == o.score.contributions@
        &&& self.explanation.same(o.explanation)
        &&& self.created_at == o.created_at
    }
}

impl Clone for Decision {
    fn clone(&self) -> (r: Self)
        ensures
            r.same(*self),
    {
        Decision {
            id: self.id,
            request_id: self.request_id.clone(),
            action: self.action,
            selected_model: self.selected_model.clone(),
            selected_runtime: self.selected_runtime.clone(),
            selected_group: self.selected_group.clone(),
            background_model: self.background_model.clone(),
            score: self.score.clone(),
            explanation: self.explanation.clone(),
            created_at: self.created_at,
        }
    }
}

/// The kind of a runtime action.
#[derive(Clone, Copy, Debug, PartialEq, Eq, Structural)]
pub enum ActionKind {
    Load,
    Unload,
    Keep,
    Stage,
    Defer,
    Deny,
    NoOp,
}

/// One step of an action plan.
#[derive(Debug, PartialEq, Eq)]
pub struct RuntimeAction {
    pub kind: ActionKind,
    pub runtime_id: RuntimeId,
    pub model_id: Option<ModelId>,
    pub is_foreground: bool,
    pub is_mutating: bool,
    pub reason: String,
    pub expected_cost_ms: Option<u64>,
}

impl Clone for RuntimeAction {
    fn clone(&self) -> (r: Self)
        ensures
            r == *self,
    {
        RuntimeAction {
            kind: self.kind,
            runtime_id: self.runtime_id.clone(),
            model_id: self.model_id.clone(),
            is_foreground: self.is_foreground,
            is_mutating: self.is_mutating,
            reason: self.reason.clone(),
            expected_cost_ms: self.expected_cost_ms,
        }
    }
}

/// The runtime actions that carry out a decision, in order.
#[derive(Debug, PartialEq, Eq)]
pub struct ActionPlan {
    pub decision_id: u128,
    pub actions: Vec<RuntimeAction>,
    pub dry_run: bool,
}

impl ActionPlan {
    /// An empty plan for a decision.
    pub fn new(decision_id: u128, dry_run: bool) -> (r: Self)
        ensures
            r.decision_id == decision_id,
            r.dry_run == dry_run,
            r.actions@.len() == 0,
    {
        ActionPlan { decision_id, actions: Vec::new(), dry_run }
    }

    /// Appends a load of `model_id` on `runtime_id`.
    pub fn add_load(
        &mut self,
        runtime_id: RuntimeId,
        model_id: ModelId,
        is_foreground: bool,
        reason: String,
        expected_cost_ms: Option<u64>,
    )
        ensures
            final(self).decision_id == old(self).decision_id,
            final(self).dry_run == old(self).dry_run,
            final(self).actions@ == old(self).actions@.push(
                RuntimeAction {
                    kind: ActionKind::Load,
                    runtime_id,
                    model_id: Some(model_id),
                    is_foreground,
                    is_mutating: true,
                    reason,
                    expected_cost_ms,
                },
            ),
    {
        self.actions.push(
            RuntimeAction {
                kind: ActionKind::Load,
                runtime_id,
                model_id: Some(model_id),
                is_foreground,
                is_mutating: true,
                reason,
                expected_cost_ms,
            },
        );
    }

    /// Appends an unload of `model_id` on `runtime_id`.
    pub fn add_unload(&mut self, runtime_id: RuntimeId, model_id: ModelId, reason: String)
        ensures
            final(self).decision_id == old(self).decision_id,
            final(self).dry_run == old(self).dry_run,
            final(self).actions@ == old(self).actions@.push(
                RuntimeAction {
                    kind: ActionKind::Unload,
                    runtime_id,
                    model_id: Some(model_id),
                    is_foreground: true,
                    is_mutating: true,
                    reason,
                    expected_cost_ms: None,
                },
            ),
    {
        self.actions.push(
            RuntimeAction {
                kind: ActionKind::Unload,
                runtime_id,
                model_id: Some(model_id),
                is_foreground: true,
                is_mutating: true,
                reason,
                expected_cost_ms: None,
            },
        );
    }

    /// Appends a no-op on `runtime_id`.
    pub fn add_noop(&mut self, runtime_id: RuntimeId, reason: String)
        ensures
            final(self).decision_id == old(self).decision_id,
            final(self).dry_run == old(self).dry_run,
            final(self).actions@ == old(self).actions@.push(
                RuntimeAction {
                    kind: ActionKind::NoOp,
                    runtime_id,
                    model_id: None,
                    is_foreground: false,
                    is_mutating: false,
                    reason,
                    expected_cost_ms: None,
                },
            ),
    {
        self.actions.push(
            RuntimeAction {
                kind: ActionKind::NoOp,
                runtime_id,
                model_id: None,
                is_foreground: false,
                is_mutating: false,
                reason,
                expected_cost_ms: None,
            },
        );
    }

    fn find_load(&self, foreground: bool) -> (r: Option<&RuntimeAction>)
        ensures
            match r {
                Some(a) => exists|i: int|
                    0 <= i < self.actions@.len() && self.actions@[i] == *a && a.kind
                        == ActionKind::Load && a.is_foreground == foreground && forall|j: int|
                        0 <= j < i ==> !((#[trigger] self.actions@[j]).kind == ActionKind::Load
                            && self.actions@[j].is_foreground == foreground),
                None => forall|i: int|
                    0 <= i < self.actions@.len() ==> !((#[trigger] self.actions@[i]).kind
                        == ActionKind::Load && self.actions@[i].is_foreground == foreground),
            },
    {
        let mut i: usize = 0;
        while i < self.actions.len()
            invariant
                i <= self.actions@.len(),
                forall|j: int|
                    0 <= j < i ==> !((#[trigger] self.actions@[j]).kind == ActionKind::Load
                        && self.actions@[j].is_foreground == foreground),
            decreases self.actions@.len() - i,
        {
            let a = &self.actions[i];
            if a.kind == ActionKind::Load && a.is_foreground == foreground {
                return Some(a);
            }
            i = i + 1;
        }
        None
    }

    /// The first foreground load of the plan, if any.
    pub fn get_foreground_load(&self) -> (r: Option<&RuntimeAction>)
        ensures
            match r {
                Some(a) => exists|i: int|
                    0 <= i < self.actions@.len() && self.actions@[i] == *a && a.kind
                        == ActionKind::Load && a.is_foreground && forall|j: int|
                        0 <= j < i ==> !((#[trigger] self.actions@[j]).kind == ActionKind::Load
                            && self.actions@[j].is_foreground),
                None => forall|i: int|
                    0 <= i < self.actions@.len() ==> !((#[trigger] self.actions@[i]).kind
                        == ActionKind::Load && self.actions@[i].is_foreground),
            },
    {
        self.find_load(true)
    }

    /// The first background load of the plan, if any.
    pub fn get_background_load(&self) -> (r: Option<&RuntimeAction>)
        ensures
            match r {
                Some(a) => exists|i: int|
                    0 <= i < self.actions@.len() && self.actions@[i] == *a && a.kind
                        == ActionKind::Load && !a.is_foreground && forall|j: int|
                        0 <= j < i ==> !((#[trigger] self.actions@[j]).kind == ActionKind::Load
                            && !self.actions@[j].is_foreground),
                None => forall|i: int|
                    0 <= i < self.actions@.len() ==> !((#[trigger] self.actions@[i]).kind
                        == ActionKind::Load && !self.actions@[i].is_foreground),
            },
    {
        self.find_load(false)
    }

    /// Whether any action of the plan changes a runtime.
    pub fn has_mutating_actions(&self) -> (r: bool)
        ensures
            r == exists|i: int|
                0 <= i < self.actions@.len() && (#[trigger] self.actions@[i]).is_mutating,
    {
        let mut i: usize = 0;
        while i < self.actions.len()
            invariant
                i <= self.actions@.len(),
                forall|j: int| 0 <= j < i ==> !(#[trigger] self.actions@[j]).is_mutating,
            decreases self.actions@.len() - i,
        {
            if self.actions[i].is_mutating {
                return true;
            }
            i = i + 1;
        }
        false
    }
}

} // verus!
