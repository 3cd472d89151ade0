//! Typed configuration and its validation.
//!
//! The configuration maps are association lists: `(key, value)` entries
//! looked up by their first matching key, which for distinct keys is the
//! unique entry a map would hold.
use vstd::prelude::*;
use crate::keyed::{has_key, is_first_key, key_index, keys_distinct, lemma_distinct_key_index, lemma_first_key_unique};
use crate::model::{ModelId, ModelProfile, ModelResident, ResidencyGroup, ResidencyGroupId, ResidencyState, RuntimeId, DomainId};
use crate::sorting::{SortKey, insert_sorted, insertion_sort, is_stable_sort, lemma_insertion_sort_map, lemma_stable_sort_map, stable_sort};
use crate::text::{decimal, lemma_text_le_antisymmetric, lemma_text_le_reflexive, lemma_text_le_total, lemma_text_le_transitive, owned, push_decimal, push_str, str_eq, str_le, text_le, text_lt};

verus! {

/// The residency groups a domain may be served from.
#[derive(Debug, PartialEq, Eq)]
pub struct DomainConfig {
    pub rosters: Vec<ResidencyGroupId>,
}

/// A model the runtime is configured to hold at start.
#[derive(Debug, PartialEq, Eq)]
pub struct RuntimeResidentConfig {
    pub model_id: ModelId,
    pub state: ResidencyState,
    pub vram_mb: Option<u64>,
    pub ram_mb: Option<u64>,
    pub kv_cache_mb: Option<u64>,
}

impl Clone for RuntimeResidentConfig {
    fn clone(&self) -> (r: Self)
        ensures
            r == *self,
    {
        RuntimeResidentConfig {
            model_id: self.model_id.clone(),
            state: self.state,
            vram_mb: self.vram_mb,
            ram_mb: self.ram_mb,
            kv_cache_mb: self.kv_cache_mb,
        }
    }
}

impl RuntimeResidentConfig {
    /// The resident this entry describes, with no load time known.
    pub fn into_resident(self) -> (r: ModelResident)
        ensures
            r == (ModelResident {
                model_id: self.model_id,
                state: self.state,
                vram_mb: self.vram_mb,
                ram_mb: self.ram_mb,
                kv_cache_mb: self.kv_cache_mb,
                loaded_since: None,
            }),
    {
        ModelResident {
            model_id: self.model_id,
            state: self.state,
            vram_mb: self.vram_mb,
            ram_mb: self.ram_mb,
            kv_cache_mb: self.kv_cache_mb,
            loaded_since: None,
        }
    }
}

/// How to reach one runtime.
#[derive(Debug, PartialEq, Eq)]
pub struct RuntimeConfig {
    pub adapter: String,
    pub base_url: Option<String>,
    pub auth_token: Option<String>,
    pub initial_residents: Vec<RuntimeResidentConfig>,
}

/// The severity of a configuration diagnostic; errors order before warnings.
#[derive(Clone, Copy, Debug, PartialEq, Eq, Structural, PartialOrd, Ord, Hash)]
pub enum DiagnosticSeverity {
    Error,
    Warning,
}

/// One problem found in a configuration.
#[derive(Debug, PartialEq, Eq)]
pub struct ConfigDiagnostic {
    pub path: String,
    pub severity: DiagnosticSeverity,
    pub message: String,
}

/// The plain content of a diagnostic: path, severity, message.
pub type DiagView = (Seq<char>, DiagnosticSeverity, Seq<char>);

impl View for ConfigDiagnostic {
    type V = DiagView;

    open spec fn view(&self) -> DiagView {
        (self.path@, self.severity, self.message@)
    }
}

impl ConfigDiagnostic {
    /// An error diagnostic.
    pub fn error(path: String, message: String) -> (r: Self)
        ensures
            r.path == path,
            r.severity == DiagnosticSeverity::Error,
            r.message == message,
    {
        ConfigDiagnostic { path, severity: DiagnosticSeverity::Error, message }
    }
}

/// Diagnostics order by path, then severity, then message.
pub open spec fn diag_le(a: DiagView, b: DiagView) -> bool {
    ||| text_lt(a.0, b.0)
    ||| (a.0 == b.0 && a.1 == DiagnosticSeverity::Error && b.1 == DiagnosticSeverity::Warning)
    ||| (a.0 == b.0 && a.1 == b.1 && text_le(a.2, b.2))
}

pub open spec fn diag_order() -> spec_fn(DiagView, DiagView) -> bool {
    |a: DiagView, b: DiagView| diag_le(a, b)
}

pub open spec fn diag_view_of() -> spec_fn(ConfigDiagnostic) -> DiagView {
    |d: ConfigDiagnostic| d@
}

impl SortKey for ConfigDiagnostic {
    open spec fn spec_le(a: Self, b: Self) -> bool {
        diag_le(a@, b@)
    }

    proof fn lemma_total_preorder() {
        let le = |a: Self, b: Self| Self::spec_le(a, b);
        assert forall|a: Self| #[trigger] le(a, a) by {
            lemma_text_le_reflexive(a.message@);
        }
        assert forall|a: Self, b: Self, c: Self| #[trigger] le(a, b) && #[trigger] le(b, c) implies le(a, c) by {
            lemma_text_le_reflexive(a.path@);
            lemma_text_le_reflexive(b.path@);
            assert(text_le(a.path@, b.path@));
            assert(text_le(b.path@, c.path@));
            lemma_text_le_transitive(a.path@, b.path@, c.path@);
            if a.path@ == c.path@ && a.path@ != b.path@ {
                lemma_text_le_antisymmetric(a.path@, b.path@);
            }
            if a.path@ == b.path@ && b.path@ == c.path@ && a.severity == b.severity && b.severity == c.severity {
                lemma_text_le_transitive(a.message@, b.message@, c.message@);
            }
        }
        assert forall|a: Self, b: Self| #[trigger] le(a, b) || #[trigger] le(b, a) by {
            lemma_text_le_total(a.path@, b.path@);
            lemma_text_le_total(a.message@, b.message@);
        }
    }

    fn le(&self, other: &Self) -> (r: bool) {
        let pl = str_le(self.path.as_str(), other.path.as_str());
        let pe = str_eq(self.path.as_str(), other.path.as_str());
        if pl && !pe {
            true
        } else if !pe {
            false
        } else {
            match (self.severity, other.severity) {
                (DiagnosticSeverity::Error, DiagnosticSeverity::Warning) => true,
                (DiagnosticSeverity::Warning, DiagnosticSeverity::Error) => false,
                _ => str_le(self.message.as_str(), other.message.as_str()),
            }
        }
    }
}

/// A configuration that failed validation, with every diagnostic found.
#[derive(Debug, PartialEq, Eq)]
pub struct ConfigValidationError {
    pub diagnostics: Vec<ConfigDiagnostic>,
}

/// How the scheduler protects interactive continuity.
#[derive(Debug, PartialEq, Eq, Clone, Copy)]
pub struct ContinuityConfig {
    pub keep_small_worker_hot: bool,
    pub background_load: bool,
    pub max_blank_wait_ms: u64,
    pub prefer_degraded_response_over_silence: bool,
}

impl Default for ContinuityConfig {
    fn default() -> (r: Self)
        ensures
            r.keep_small_worker_hot,
            r.background_load,
            r.max_blank_wait_ms == 1500,
            r.prefer_degraded_response_over_silence,
    {
        ContinuityConfig {
            keep_small_worker_hot: true,
            background_load: true,
            max_blank_wait_ms: 1500,
            prefer_degraded_response_over_silence: true,
        }
    }
}

/// Configuration of one residency group.
#[derive(Debug, PartialEq, Eq)]
pub struct ResidencyGroupConfig {
    pub purpose: Vec<String>,
    pub models: Vec<ModelId>,
    pub keep_hot: bool,
    pub allow_background_load: bool,
    pub pinned: bool,
}

impl ResidencyGroupConfig {
    /// The group this entry describes under the id `id`.
    pub fn into_group(self, id: ResidencyGroupId) -> (r: ResidencyGroup)
        ensures
            r.id == id,
            r.purpose@ == self.purpose@,
            r.models@ == self.models@,
            r.keep_hot == self.keep_hot,
            r.allow_background_load == self.allow_background_load,
            r.pinned == self.pinned,
    {
        ResidencyGroup {
            id,
            purpose: self.purpose,
            models: self.models,
            keep_hot: self.keep_hot,
            allow_background_load: self.allow_background_load,
            pinned: self.pinned,
        }
    }
}

/// Configuration of one model.
#[derive(Debug, PartialEq, Eq)]
pub struct ModelProfileConfig {
    pub family: String,
    pub parameter_class: String,
    pub context_window: Option<u32>,
    pub vram_required_mb: Option<u64>,
    pub ram_required_mb: Option<u64>,
    pub cold_load_estimate_ms: Option<u64>,
    pub supported_runtimes: Vec<RuntimeId>,
    /// `None` means unknown (treat as permissive).
    pub supports_streaming: Option<bool>,
}

impl Clone for ModelProfileConfig {
    fn clone(&self) -> (r: Self)
        ensures
            r.family == self.family,
            r.parameter_class == self.parameter_class,
            r.context_window == self.context_window,
            r.vram_required_mb == self.vram_required_mb,
            r.ram_required_mb == self.ram_required_mb,
            r.cold_load_estimate_ms == self.cold_load_estimate_ms,
            r.supported_runtimes@ == self.supported_runtimes@,
            r.supports_streaming == self.supports_streaming,
    {
        ModelProfileConfig {
            family: self.family.clone(),
            parameter_class: self.parameter_class.clone(),
            context_window: self.context_window,
            vram_required_mb: self.vram_required_mb,
            ram_required_mb: self.ram_required_mb,
            cold_load_estimate_ms: self.cold_load_estimate_ms,
            supported_runtimes: self.supported_runtimes.clone(),
            supports_streaming: self.supports_streaming,
        }
    }
}

impl ModelProfileConfig {
    /// The profile this entry describes under the id `id`.
    pub fn into_profile(self, id: ModelId) -> (r: ModelProfile)
        ensures
            r.id == id,
            r.family == self.family,
            r.parameter_class == self.parameter_class,
            r.context_window == self.context_window,
            r.vram_required_mb == self.vram_required_mb,
            r.ram_required_mb == self.ram_required_mb,
            r.cold_load_estimate_ms == self.cold_load_estimate_ms,
            r.supported_runtimes@ == self.supported_runtimes@,
            r.supports_streaming == self.supports_streaming,
    {
        ModelProfile {
            id,
            family: self.family,
            parameter_class: self.parameter_class,
            context_window: self.context_window,
            vram_required_mb: self.vram_required_mb,
            ram_required_mb: self.ram_required_mb,
            cold_load_estimate_ms: self.cold_load_estimate_ms,
            supported_runtimes: self.supported_runtimes,
            supports_streaming: self.supports_streaming,
        }
    }
}

/// The whole control-plane configuration.
#[derive(Debug, PartialEq, Eq)]
pub struct AnemoiConfig {
    pub domains: Vec<(DomainId, DomainConfig)>,
    pub residency_groups: Vec<(ResidencyGroupId, ResidencyGroupConfig)>,
    pub models: Vec<(ModelId, ModelProfileConfig)>,
    pub runtimes: Vec<(RuntimeId, RuntimeConfig)>,
    pub continuity: ContinuityConfig,
}

pub open spec fn domain_key() -> spec_fn((DomainId, DomainConfig)) -> Seq<char> {
    |e: (DomainId, DomainConfig)| e.0.0@
}

pub open spec fn group_key() -> spec_fn((ResidencyGroupId, ResidencyGroupConfig)) -> Seq<char> {
    |e: (ResidencyGroupId, ResidencyGroupConfig)| e.0.0@
}

pub open spec fn model_key() -> spec_fn((ModelId, ModelProfileConfig)) -> Seq<char> {
    |e: (ModelId, ModelProfileConfig)| e.0.0@
}

pub open spec fn runtime_key() -> spec_fn((RuntimeId, RuntimeConfig)) -> Seq<char> {
    |e: (RuntimeId, RuntimeConfig)| e.0.0@
}

/// The runtime adapters the control plane knows how to drive.
pub open spec fn known_adapter(a: Seq<char>) -> bool {
    a == "mock"@ || a == "ollama"@ || a == "llama_cpp"@ || a == "llama_server"@ || a
        == "llama_swap"@
}

/// Whether `adapter` names a known runtime adapter (`mock`, `ollama`,
/// `llama_cpp`, `llama_server`, `llama_swap`).
pub fn is_known_runtime_adapter(adapter: &str) -> (r: bool)
    ensures
        r == known_adapter(adapter@),
{
    str_eq(adapter, "mock") || str_eq(adapter, "ollama") || str_eq(adapter, "llama_cpp")
        || str_eq(adapter, "llama_server") || str_eq(adapter, "llama_swap")
}

impl AnemoiConfig {
    pub open spec fn has_domain(self, k: Seq<char>) -> bool {
        has_key(self.domains@, domain_key(), k)
    }

    pub open spec fn has_group(self, k: Seq<char>) -> bool {
        has_key(self.residency_groups@, group_key(), k)
    }

    pub open spec fn has_model(self, k: Seq<char>) -> bool {
        has_key(self.models@, model_key(), k)
    }

    pub open spec fn has_runtime(self, k: Seq<char>) -> bool {
        has_key(self.runtimes@, runtime_key(), k)
    }

    /// The configuration of domain `k` (meaningful when `has_domain(k)`).
    pub open spec fn domain(self, k: Seq<char>) -> DomainConfig {
        self.domains@[key_index(self.domains@, domain_key(), k)].1
    }

    /// The configuration of group `k` (meaningful when `has_group(k)`).
    pub open spec fn group(self, k: Seq<char>) -> ResidencyGroupConfig {
        self.residency_groups@[key_index(self.residency_groups@, group_key(), k)].1
    }

    /// The configuration of model `k` (meaningful when `has_model(k)`).
    pub open spec fn model(self, k: Seq<char>) -> ModelProfileConfig {
        self.models@[key_index(self.models@, model_key(), k)].1
    }

    /// The configuration of runtime `k` (meaningful when `has_runtime(k)`).
    pub open spec fn runtime(self, k: Seq<char>) -> RuntimeConfig {
        self.runtimes@[key_index(self.runtimes@, runtime_key(), k)].1
    }

    /// The configuration of domain `id`, if configured.
    pub fn find_domain(&self, id: &str) -> (r: Option<&DomainConfig>)
        ensures
            r is Some == self.has_domain(id@),
            r matches Some(d) ==> *d == self.domain(id@),
    {
        let mut i: usize = 0;
        while i < self.domains.len()
            invariant
                i <= self.domains@.len(),
                forall|j: int| 0 <= j < i ==> (domain_key())(#[trigger] self.domains@[j]) != id@,
            decreases self.domains@.len() - i,
        {
            if str_eq(self.domains[i].0.0.as_str(), id) {
                proof {
                    assert(is_first_key(self.domains@, domain_key(), id@, i as int));
                    lemma_first_key_unique(self.domains@, domain_key(), id@, i as int);
                }
                return Some(&self.domains[i].1);
            }
            i = i + 1;
        }
        None
    }

    /// The configuration of group `id`, if configured.
    pub fn find_group(&self, id: &str) -> (r: Option<&ResidencyGroupConfig>)
        ensures
            r is Some == self.has_group(id@),
            r matches Some(g) ==> *g == self.group(id@),
    {
        let mut i: usize = 0;
        while i < self.residency_groups.len()
            invariant
                i <= self.residency_groups@.len(),
                forall|j: int|
                    0 <= j < i ==> (group_key())(#[trigger] self.residency_groups@[j]) != id@,
            decreases self.residency_groups@.len() - i,
        {
            if str_eq(self.residency_groups[i].0.0.as_str(), id) {
                proof {
                    assert(is_first_key(self.residency_groups@, group_key(), id@, i as int));
                    lemma_first_key_unique(self.residency_groups@, group_key(), id@, i as int);
                }
                return Some(&self.residency_groups[i].1);
            }
            i = i + 1;
        }
        None
    }

    /// The configuration of model `id`, if configured.
    pub fn find_model(&self, id: &str) -> (r: Option<&ModelProfileConfig>)
        ensures
            r is Some == self.has_model(id@),
            r matches Some(m) ==> *m == self.model(id@),
    {
        let mut i: usize = 0;
        while i < self.models.len()
            invariant
                i <= self.models@.len(),
                forall|j: int| 0 <= j < i ==> (model_key())(#[trigger] self.models@[j]) != id@,
            decreases self.models@.len() - i,
        {
            if str_eq(self.models[i].0.0.as_str(), id) {
                proof {
                    assert(is_first_key(self.models@, model_key(), id@, i as int));
                    lemma_first_key_unique(self.models@, model_key(), id@, i as int);
                }
                return Some(&self.models[i].1);
            }
            i = i + 1;
        }
        None
    }

    /// The configuration of runtime `id`, if configured.
    pub fn find_runtime(&self, id: &str) -> (r: Option<&RuntimeConfig>)
        ensures
            r is Some == self.has_runtime(id@),
            r matches Some(c) ==> *c == self.runtime(id@),
    {
        let mut i: usize = 0;
        while i < self.runtimes.len()
            invariant
                i <= self.runtimes@.len(),
                forall|j: int| 0 <= j < i ==> (runtime_key())(#[trigger] self.runtimes@[j]) != id@,
            decreases self.runtimes@.len() - i,
        {
            if str_eq(self.runtimes[i].0.0.as_str(), id) {
                proof {
                    assert(is_first_key(self.runtimes@, runtime_key(), id@, i as int));
                    lemma_first_key_unique(self.runtimes@, runtime_key(), id@, i as int);
                }
                return Some(&self.runtimes[i].1);
            }
            i = i + 1;
        }
        None
    }
}

impl AnemoiConfig {
    /// No domain, residency group, model or runtime id occurs twice, as in
    /// the maps a configuration file is read into.
    pub open spec fn keys_unique(self) -> bool {
        &&& keys_distinct(self.domains@, domain_key())
        &&& keys_distinct(self.residency_groups@, group_key())
        &&& keys_distinct(self.models@, model_key())
        &&& keys_distinct(self.runtimes@, runtime_key())
    }

    /// Whether no domain, residency group, model or runtime id occurs twice.
    pub fn has_unique_keys(&self) -> (r: bool)
        ensures
            r == self.keys_unique(),
    {
        let ds = self.domains.len();
        let mut i: usize = 0;
        while i < ds
            invariant
                ds == self.domains@.len(),
                i <= ds,
                forall|a: int, b: int| 0 <= a < b < ds && a < i ==> (domain_key())(#[trigger] self.domains@[a]) != (domain_key())(#[trigger] self.domains@[b]),
            decreases ds - i,
        {
            let mut j: usize = i + 1;
            while j < ds
                invariant
                    ds == self.domains@.len(),
                    i < j <= ds,
                    forall|a: int, b: int| 0 <= a < b < ds && a < i ==> (domain_key())(#[trigger] self.domains@[a]) != (domain_key())(#[trigger] self.domains@[b]),
                    forall|b: int| i < b < j ==> (domain_key())(self.domains@[i as int]) != (domain_key())(#[trigger] self.domains@[b]),
                decreases ds - j,
            {
                if str_eq(self.domains[i].0.0.as_str(), self.domains[j].0.0.as_str()) {
                    return false;
                }
                j = j + 1;
            }
            i = i + 1;
        }
        let gs = self.residency_groups.len();
        let mut i: usize = 0;
        while i < gs
            invariant
                ds == self.domains@.len(),
                keys_distinct(self.domains@, domain_key()),
                gs == self.residency_groups@.len(),
                i <= gs,
                forall|a: int, b: int| 0 <= a < b < gs && a < i ==> (group_key())(#[trigger] self.residency_groups@[a]) != (group_key())(#[trigger] self.residency_groups@[b]),
            decreases gs - i,
        {
            let mut j: usize = i + 1;
            while j < gs
                invariant
                    gs == self.residency_groups@.len(),
                    i < j <= gs,
                    forall|a: int, b: int| 0 <= a < b < gs && a < i ==> (group_key())(#[trigger] self.residency_groups@[a]) != (group_key())(#[trigger] self.residency_groups@[b]),
                    forall|b: int| i < b < j ==> (group_key())(self.residency_groups@[i as int]) != (group_key())(#[trigger] self.residency_groups@[b]),
                decreases gs - j,
            {
                if str_eq(self.residency_groups[i].0.0.as_str(), self.residency_groups[j].0.0.as_str()) {
                    return false;
                }
                j = j + 1;
            }
            i = i + 1;
        }
        let ms = self.models.len();
        let mut i: usize = 0;
        while i < ms
            invariant
                keys_distinct(self.domains@, domain_key()),
                keys_distinct(self.residency_groups@, group_key()),
                ms == self.models@.len(),
                i <= ms,
                forall|a: int, b: int| 0 <= a < b < ms && a < i ==> (model_key())(#[trigger] self.models@[a]) != (model_key())(#[trigger] self.models@[b]),
            decreases ms - i,
        {
            let mut j: usize = i + 1;
            while j < ms
                invariant
                    ms == self.models@.len(),
                    i < j <= ms,
                    forall|a: int, b: int| 0 <= a < b < ms && a < i ==> (model_key())(#[trigger] self.models@[a]) != (model_key())(#[trigger] self.models@[b]),
                    forall|b: int| i < b < j ==> (model_key())(self.models@[i as int]) != (model_key())(#[trigger] self.models@[b]),
                decreases ms - j,
            {
                if str_eq(self.models[i].0.0.as_str(), self.models[j].0.0.as_str()) {
                    return false;
                }
                j = j + 1;
            }
            i = i + 1;
        }
        let rs = self.runtimes.len();
        let mut i: usize = 0;
        while i < rs
            invariant
                keys_distinct(self.domains@, domain_key()),
                keys_distinct(self.residency_groups@, group_key()),
                keys_distinct(self.models@, model_key()),
                rs == self.runtimes@.len(),
                i <= rs,
                forall|a: int, b: int| 0 <= a < b < rs && a < i ==> (runtime_key())(#[trigger] self.runtimes@[a]) != (runtime_key())(#[trigger] self.runtimes@[b]),
            decreases rs - i,
        {
            let mut j: usize = i + 1;
            while j < rs
                invariant
                    rs == self.runtimes@.len(),
                    i < j <= rs,
                    forall|a: int, b: int| 0 <= a < b < rs && a < i ==> (runtime_key())(#[trigger] self.runtimes@[a]) != (runtime_key())(#[trigger] self.runtimes@[b]),
                    forall|b: int| i < b < j ==> (runtime_key())(self.runtimes@[i as int]) != (runtime_key())(#[trigger] self.runtimes@[b]),
                decreases rs - j,
            {
                if str_eq(self.runtimes[i].0.0.as_str(), self.runtimes[j].0.0.as_str()) {
                    return false;
                }
                j = j + 1;
            }
            i = i + 1;
        }
        true
    }
}

/// In a configuration whose ids are unique, every entry is what a lookup of
/// its id finds: the lists behave as the maps they stand for.
pub proof fn lemma_unique_keys_lookup(cfg: AnemoiConfig, i: int)
    requires
        cfg.keys_unique(),
    ensures
        0 <= i < cfg.domains@.len() ==> cfg.has_domain(cfg.domains@[i].0.0@) && cfg.domain(cfg.domains@[i].0.0@) == cfg.domains@[i].1,
        0 <= i < cfg.residency_groups@.len() ==> cfg.has_group(cfg.residency_groups@[i].0.0@) && cfg.group(
            cfg.residency_groups@[i].0.0@,
        ) == cfg.residency_groups@[i].1,
        0 <= i < cfg.models@.len() ==> cfg.has_model(cfg.models@[i].0.0@) && cfg.model(cfg.models@[i].0.0@) == cfg.models@[i].1,
        0 <= i < cfg.runtimes@.len() ==> cfg.has_runtime(cfg.runtimes@[i].0.0@) && cfg.runtime(cfg.runtimes@[i].0.0@)
            == cfg.runtimes@[i].1,
{
    if 0 <= i < cfg.domains@.len() {
        lemma_distinct_key_index(cfg.domains@, domain_key(), i);
    }
    if 0 <= i < cfg.residency_groups@.len() {
        lemma_distinct_key_index(cfg.residency_groups@, group_key(), i);
    }
    if 0 <= i < cfg.models@.len() {
        lemma_distinct_key_index(cfg.models@, model_key(), i);
    }
    if 0 <= i < cfg.runtimes@.len() {
        lemma_distinct_key_index(cfg.runtimes@, runtime_key(), i);
    }
}

pub open spec fn error_diag(path: Seq<char>, message: Seq<char>) -> DiagView {
    (path, DiagnosticSeverity::Error, message)
}

pub open spec fn quoted(prefix: Seq<char>, name: Seq<char>) -> Seq<char> {
    prefix + name + "'"@
}

pub open spec fn indexed(prefix: Seq<char>, index: int, suffix: Seq<char>) -> Seq<char> {
    prefix + "["@ + decimal(index as nat) + "]"@ + suffix
}

/// Diagnostics for the first `n` roster entries of domain `domain`.
pub open spec fn roster_diags(cfg: AnemoiConfig, domain: Seq<char>, rosters: Seq<ResidencyGroupId>, n: int) -> Seq<DiagView>
    decreases n,
{
    if n <= 0 {
        seq![]
    } else {
        roster_diags(cfg, domain, rosters, n - 1) + if !cfg.has_group(rosters[n - 1].0@) {
            seq![error_diag(indexed("domains."@ + domain + ".rosters"@, n - 1, seq![]), quoted("unknown residency group '"@, rosters[n - 1].0@))]
        } else {
            seq![]
        }
    }
}

pub open spec fn domain_entry_diags(cfg: AnemoiConfig, e: (DomainId, DomainConfig)) -> Seq<DiagView> {
    (if e.1.rosters@.len() == 0 {
        seq![error_diag("domains."@ + e.0.0@ + ".rosters"@, "domain must reference at least one residency group"@)]
    } else {
        seq![]
    }) + roster_diags(cfg, e.0.0@, e.1.rosters@, e.1.rosters@.len() as int)
}

/// Diagnostics for the first `n` group members of group `group`.
pub open spec fn member_diags(cfg: AnemoiConfig, group: Seq<char>, models: Seq<ModelId>, n: int) -> Seq<DiagView>
    decreases n,
{
    if n <= 0 {
        seq![]
    } else {
        member_diags(cfg, group, models, n - 1) + if !cfg.has_model(models[n - 1].0@) {
            seq![error_diag(indexed("residency_groups."@ + group + ".models"@, n - 1, seq![]), quoted("unknown model '"@, models[n - 1].0@))]
        } else {
            seq![]
        }
    }
}

pub open spec fn group_entry_diags(cfg: AnemoiConfig, e: (ResidencyGroupId, ResidencyGroupConfig)) -> Seq<DiagView> {
    (if e.1.models@.len() == 0 {
        seq![error_diag("residency_groups."@ + e.0.0@ + ".models"@, "residency group must reference at least one model"@)]
    } else {
        seq![]
    }) + member_diags(cfg, e.0.0@, e.1.models@, e.1.models@.len() as int)
}

/// Diagnostics for the first `n` supported runtimes of model `model`.
pub open spec fn support_diags(cfg: AnemoiConfig, model: Seq<char>, runtimes: Seq<RuntimeId>, n: int) -> Seq<DiagView>
    decreases n,
{
    if n <= 0 {
        seq![]
    } else {
        support_diags(cfg, model, runtimes, n - 1) + if !cfg.has_runtime(runtimes[n - 1].0@) {
            seq![error_diag(indexed("models."@ + model + ".supported_runtimes"@, n - 1, seq![]), quoted("unknown runtime '"@, runtimes[n - 1].0@))]
        } else {
            seq![]
        }
    }
}

pub open spec fn model_entry_diags(cfg: AnemoiConfig, e: (ModelId, ModelProfileConfig)) -> Seq<DiagView> {
    support_diags(cfg, e.0.0@, e.1.supported_runtimes@, e.1.supported_runtimes@.len() as int)
}

/// Diagnostics for the first `n` initial residents of runtime `runtime`.
pub open spec fn resident_diags(cfg: AnemoiConfig, runtime: Seq<char>, residents: Seq<RuntimeResidentConfig>, n: int) -> Seq<DiagView>
    decreases n,
{
    if n <= 0 {
        seq![]
    } else {
        resident_diags(cfg, runtime, residents, n - 1) + if !cfg.has_model(residents[n - 1].model_id.0@) {
            seq![error_diag(indexed("runtimes."@ + runtime + ".initial_residents"@, n - 1, ".model_id"@), quoted("unknown model '"@, residents[n - 1].model_id.0@))]
        } else {
            seq![]
        }
    }
}

pub open spec fn runtime_entry_diags(cfg: AnemoiConfig, e: (RuntimeId, RuntimeConfig)) -> Seq<DiagView> {
    (if !known_adapter(e.1.adapter@) {
        seq![error_diag("runtimes."@ + e.0.0@ + ".adapter"@, quoted("unknown runtime adapter '"@, e.1.adapter@))]
    } else {
        seq![]
    }) + (if known_adapter(e.1.adapter@) && e.1.adapter@ != "mock"@ && e.1.base_url is None {
        seq![error_diag("runtimes."@ + e.0.0@ + ".base_url"@, "runtime adapter '"@ + e.1.adapter@ + "' requires a base_url"@)]
    } else {
        seq![]
    }) + resident_diags(cfg, e.0.0@, e.1.initial_residents@, e.1.initial_residents@.len() as int)
}

/// The adapters a runtime may name: `mock`, `ollama`, `llama_cpp`,
/// `llama_server` and `llama_swap`. A runtime on one of them that has a
/// base URL (or needs none, as `mock`) draws no diagnostic of its own: its
/// diagnostics are those of its initial residents. A runtime on any other
/// adapter draws the unknown-adapter diagnostic first.
pub proof fn lemma_runtime_adapters_validate(cfg: AnemoiConfig, e: (RuntimeId, RuntimeConfig))
    ensures
        (e.1.adapter@ == "mock"@ || e.1.adapter@ == "ollama"@ || e.1.adapter@ == "llama_cpp"@
            || e.1.adapter@ == "llama_server"@ || e.1.adapter@ == "llama_swap"@)
            && (e.1.adapter@ == "mock"@ || e.1.base_url is Some)
            ==> runtime_entry_diags(cfg, e) == resident_diags(
            cfg,
            e.0.0@,
            e.1.initial_residents@,
            e.1.initial_residents@.len() as int,
        ),
        !(e.1.adapter@ == "mock"@ || e.1.adapter@ == "ollama"@ || e.1.adapter@ == "llama_cpp"@
            || e.1.adapter@ == "llama_server"@ || e.1.adapter@ == "llama_swap"@) ==> runtime_entry_diags(cfg, e)[0]
            == error_diag(
            "runtimes."@ + e.0.0@ + ".adapter"@,
            quoted("unknown runtime adapter '"@, e.1.adapter@),
        ),
{
    let r = resident_diags(cfg, e.0.0@, e.1.initial_residents@, e.1.initial_residents@.len() as int);
    if known_adapter(e.1.adapter@) && (e.1.adapter@ == "mock"@ || e.1.base_url is Some) {
        assert(Seq::<DiagView>::empty() + Seq::<DiagView>::empty() + r =~= r);
    }
}

pub open spec fn domains_diags(cfg: AnemoiConfig, n: int) -> Seq<DiagView>
    decreases n,
{
    if n <= 0 {
        seq![]
    } else {
        domains_diags(cfg, n - 1) + domain_entry_diags(cfg, cfg.domains@[n - 1])
    }
}

pub open spec fn groups_diags(cfg: AnemoiConfig, n: int) -> Seq<DiagView>
    decreases n,
{
    if n <= 0 {
        seq![]
    } else {
        groups_diags(cfg, n - 1) + group_entry_diags(cfg, cfg.residency_groups@[n - 1])
    }
}

pub open spec fn models_diags(cfg: AnemoiConfig, n: int) -> Seq<DiagView>
    decreases n,
{
    if n <= 0 {
        seq![]
    } else {
        models_diags(cfg, n - 1) + model_entry_diags(cfg, cfg.models@[n - 1])
    }
}

pub open spec fn runtimes_diags(cfg: AnemoiConfig, n: int) -> Seq<DiagView>
    decreases n,
{
    if n <= 0 {
        seq![]
    } else {
        runtimes_diags(cfg, n - 1) + runtime_entry_diags(cfg, cfg.runtimes@[n - 1])
    }
}

/// Every problem in a configuration, in the order the maps list them: empty
/// or dangling domain rosters, empty or dangling group members, models naming
/// unknown runtimes, unknown adapters, live adapters without a base URL, and
/// initial residents naming unknown models.
pub open spec fn config_diagnostics(cfg: AnemoiConfig) -> Seq<DiagView> {
    domains_diags(cfg, cfg.domains@.len() as int) + groups_diags(cfg, cfg.residency_groups@.len() as int)
        + models_diags(cfg, cfg.models@.len() as int) + runtimes_diags(cfg, cfg.runtimes@.len() as int)
}

fn push_diag(diags: &mut Vec<ConfigDiagnostic>, path: String, message: String)
    ensures
        final(diags)@.map_values(diag_view_of()) == old(diags)@.map_values(diag_view_of()).push(error_diag(path@, message@)),
{
    let ghost before = diags@;
    diags.push(ConfigDiagnostic::error(path, message));
    assert(diags@.map_values(diag_view_of()) =~= before.map_values(diag_view_of()).push(error_diag(path@, message@)));
}

fn path_with_index(prefix: &String, index: usize, suffix: &str) -> (r: String)
    ensures
        r@ == indexed(prefix@, index as int, suffix@),
{
    let mut p = prefix.clone();
    push_str(&mut p, "[");
    push_decimal(&mut p, index as u64);
    push_str(&mut p, "]");
    push_str(&mut p, suffix);
    proof {
        assert(p@ =~= indexed(prefix@, index as int, suffix@));
    }
    p
}

fn quote(prefix: &str, name: &str) -> (r: String)
    ensures
        r@ == quoted(prefix@, name@),
{
    let mut m = owned(prefix);
    push_str(&mut m, name);
    push_str(&mut m, "'");
    m
}

fn three(a: &str, b: &str, c: &str) -> (r: String)
    ensures
        r@ == a@ + b@ + c@,
{
    let mut m = owned(a);
    push_str(&mut m, b);
    push_str(&mut m, c);
    m
}

fn check_domain(config: &AnemoiConfig, e: &(DomainId, DomainConfig), diags: &mut Vec<ConfigDiagnostic>)
    ensures
        final(diags)@.map_values(diag_view_of()) == old(diags)@.map_values(diag_view_of()) + domain_entry_diags(*config, *e),
{
    let ghost start = diags@.map_values(diag_view_of());
    let id = e.0.0.as_str();
    if e.1.rosters.len() == 0 {
        push_diag(diags, three("domains.", id, ".rosters"), owned("domain must reference at least one residency group"));
    }
    let ghost mid = diags@.map_values(diag_view_of());
    let prefix = three("domains.", id, ".rosters");
    let mut i: usize = 0;
    while i < e.1.rosters.len()
        invariant
            i <= e.1.rosters@.len(),
            prefix@ == "domains."@ + e.0.0@ + ".rosters"@,
            diags@.map_values(diag_view_of()) == mid + roster_diags(*config, e.0.0@, e.1.rosters@, i as int),
        decreases e.1.rosters@.len() - i,
    {
        let g = &e.1.rosters[i];
        if config.find_group(g.0.as_str()).is_none() {
            push_diag(diags, path_with_index(&prefix, i, ""), quote("unknown residency group '", g.0.as_str()));
        }
        proof {
            reveal_strlit("");
            assert(roster_diags(*config, e.0.0@, e.1.rosters@, i + 1) == roster_diags(*config, e.0.0@, e.1.rosters@, i as int) + if !config.has_group(e.1.rosters@[i as int].0@) {
                seq![error_diag(indexed("domains."@ + e.0.0@ + ".rosters"@, i as int, seq![]), quoted("unknown residency group '"@, e.1.rosters@[i as int].0@))]
            } else {
                seq![]
            });
            assert(""@ =~= Seq::<char>::empty());
        }
        assert(diags@.map_values(diag_view_of()) =~= mid + roster_diags(*config, e.0.0@, e.1.rosters@, i + 1));
        i = i + 1;
    }
    assert(diags@.map_values(diag_view_of()) =~= start + domain_entry_diags(*config, *e));
}


fn check_group(config: &AnemoiConfig, e: &(ResidencyGroupId, ResidencyGroupConfig), diags: &mut Vec<ConfigDiagnostic>)
    ensures
        final(diags)@.map_values(diag_view_of()) == old(diags)@.map_values(diag_view_of()) + group_entry_diags(*config, *e),
{
    let ghost start = diags@.map_values(diag_view_of());
    let id = e.0.0.as_str();
    if e.1.models.len() == 0 {
        push_diag(diags, three("residency_groups.", id, ".models"), owned("residency group must reference at least one model"));
    }
    let ghost mid = diags@.map_values(diag_view_of());
    let prefix = three("residency_groups.", id, ".models");
    let mut i: usize = 0;
    while i < e.1.models.len()
        invariant
            i <= e.1.models@.len(),
            prefix@ == "residency_groups."@ + e.0.0@ + ".models"@,
            diags@.map_values(diag_view_of()) == mid + member_diags(*config, e.0.0@, e.1.models@, i as int),
        decreases e.1.models@.len() - i,
    {
        let m = &e.1.models[i];
        if config.find_model(m.0.as_str()).is_none() {
            push_diag(diags, path_with_index(&prefix, i, ""), quote("unknown model '", m.0.as_str()));
        }
        proof {
            reveal_strlit("");
            assert(""@ =~= Seq::<char>::empty());
        }
        assert(diags@.map_values(diag_view_of()) =~= mid + member_diags(*config, e.0.0@, e.1.models@, i + 1));
        i = i + 1;
    }
    assert(diags@.map_values(diag_view_of()) =~= start + group_entry_diags(*config, *e));
}

fn check_model(config: &AnemoiConfig, e: &(ModelId, ModelProfileConfig), diags: &mut Vec<ConfigDiagnostic>)
    ensures
        final(diags)@.map_values(diag_view_of()) == old(diags)@.map_values(diag_view_of()) + model_entry_diags(*config, *e),
{
    let ghost start = diags@.map_values(diag_view_of());
    let prefix = three("models.", e.0.0.as_str(), ".supported_runtimes");
    let mut i: usize = 0;
    assert(start =~= start + support_diags(*config, e.0.0@, e.1.supported_runtimes@, 0));
    while i < e.1.supported_runtimes.len()
        invariant
            i <= e.1.supported_runtimes@.len(),
            prefix@ == "models."@ + e.0.0@ + ".supported_runtimes"@,
            diags@.map_values(diag_view_of()) == start + support_diags(*config, e.0.0@, e.1.supported_runtimes@, i as int),
        decreases e.1.supported_runtimes@.len() - i,
    {
        let r = &e.1.supported_runtimes[i];
        if config.find_runtime(r.0.as_str()).is_none() {
            push_diag(diags, path_with_index(&prefix, i, ""), quote("unknown runtime '", r.0.as_str()));
        }
        proof {
            reveal_strlit("");
            assert(""@ =~= Seq::<char>::empty());
        }
        assert(diags@.map_values(diag_view_of()) =~= start + support_diags(*config, e.0.0@, e.1.supported_runtimes@, i + 1));
        i = i + 1;
    }
}

fn check_runtime(config: &AnemoiConfig, e: &(RuntimeId, RuntimeConfig), diags: &mut Vec<ConfigDiagnostic>)
    ensures
        final(diags)@.map_values(diag_view_of()) == old(diags)@.map_values(diag_view_of()) + runtime_entry_diags(*config, *e),
{
    let ghost start = diags@.map_values(diag_view_of());
    let id = e.0.0.as_str();
    let adapter = e.1.adapter.as_str();
    let known = is_known_runtime_adapter(adapter);
    if !known {
        push_diag(diags, three("runtimes.", id, ".adapter"), quote("unknown runtime adapter '", adapter));
    }
    let ghost a = diags@.map_values(diag_view_of());
    if known && !str_eq(adapter, "mock") && e.1.base_url.is_none() {
        push_diag(diags, three("runtimes.", id, ".base_url"), three("runtime adapter '", adapter, "' requires a base_url"));
    }
    let ghost mid = diags@.map_values(diag_view_of());
    let prefix = three("runtimes.", id, ".initial_residents");
    let mut i: usize = 0;
    assert(mid =~= mid + resident_diags(*config, e.0.0@, e.1.initial_residents@, 0));
    while i < e.1.initial_residents.len()
        invariant
            i <= e.1.initial_residents@.len(),
            prefix@ == "runtimes."@ + e.0.0@ + ".initial_residents"@,
            diags@.map_values(diag_view_of()) == mid + resident_diags(*config, e.0.0@, e.1.initial_residents@, i as int),
        decreases e.1.initial_residents@.len() - i,
    {
        let m = &e.1.initial_residents[i].model_id;
        if config.find_model(m.0.as_str()).is_none() {
            push_diag(diags, path_with_index(&prefix, i, ".model_id"), quote("unknown model '", m.0.as_str()));
        }
        assert(diags@.map_values(diag_view_of()) =~= mid + resident_diags(*config, e.0.0@, e.1.initial_residents@, i + 1));
        i = i + 1;
    }
    assert(diags@.map_values(diag_view_of()) =~= start + runtime_entry_diags(*config, *e));
}

/// The diagnostics of `config` in the order they are reported: stably sorted
/// by path, then severity, then message.
pub open spec fn sorted_diagnostics(config: AnemoiConfig) -> Seq<DiagView> {
    insertion_sort(config_diagnostics(config), diag_order())
}

/// Every diagnostic of `config`, sorted by path, then severity, then
/// message. An empty result means the configuration is valid.
pub fn validate_config(config: &AnemoiConfig) -> (r: Vec<ConfigDiagnostic>)
    ensures
        is_stable_sort(r@.map_values(diag_view_of()), config_diagnostics(*config), diag_order()),
        r@.map_values(diag_view_of()) == sorted_diagnostics(*config),
{
    let mut diags: Vec<ConfigDiagnostic> = Vec::new();
    let mut i: usize = 0;
    assert(diags@.map_values(diag_view_of()) =~= domains_diags(*config, 0));
    while i < config.domains.len()
        invariant
            i <= config.domains@.len(),
            diags@.map_values(diag_view_of()) == domains_diags(*config, i as int),
        decreases config.domains@.len() - i,
    {
        check_domain(config, &config.domains[i], &mut diags);
        i = i + 1;
    }
    let ghost d1 = diags@.map_values(diag_view_of());
    let mut i: usize = 0;
    assert(d1 =~= d1 + groups_diags(*config, 0));
    while i < config.residency_groups.len()
        invariant
            i <= config.residency_groups@.len(),
            diags@.map_values(diag_view_of()) == d1 + groups_diags(*config, i as int),
        decreases config.residency_groups@.len() - i,
    {
        check_group(config, &config.residency_groups[i], &mut diags);
        assert(diags@.map_values(diag_view_of()) =~= d1 + groups_diags(*config, i + 1));
        i = i + 1;
    }
    let ghost d2 = diags@.map_values(diag_view_of());
    let mut i: usize = 0;
    assert(d2 =~= d2 + models_diags(*config, 0));
    while i < config.models.len()
        invariant
            i <= config.models@.len(),
            diags@.map_values(diag_view_of()) == d2 + models_diags(*config, i as int),
        decreases config.models@.len() - i,
    {
        check_model(config, &config.models[i], &mut diags);
        assert(diags@.map_values(diag_view_of()) =~= d2 + models_diags(*config, i + 1));
        i = i + 1;
    }
    let ghost d3 = diags@.map_values(diag_view_of());
    let mut i: usize = 0;
    assert(d3 =~= d3 + runtimes_diags(*config, 0));
    while i < config.runtimes.len()
        invariant
            i <= config.runtimes@.len(),
            diags@.map_values(diag_view_of()) == d3 + runtimes_diags(*config, i as int),
        decreases config.runtimes@.len() - i,
    {
        check_runtime(config, &config.runtimes[i], &mut diags);
        assert(diags@.map_values(diag_view_of()) =~= d3 + runtimes_diags(*config, i + 1));
        i = i + 1;
    }
    assert(diags@.map_values(diag_view_of()) =~= config_diagnostics(*config));
    let ghost unsorted = diags@;
    let sorted = stable_sort(diags);
    proof {
        lemma_stable_sort_map(
            sorted@,
            unsorted,
            |a: ConfigDiagnostic, b: ConfigDiagnostic| ConfigDiagnostic::spec_le(a, b),
            diag_view_of(),
            diag_order(),
        );
        lemma_insertion_sort_map(
            unsorted,
            |a: ConfigDiagnostic, b: ConfigDiagnostic| ConfigDiagnostic::spec_le(a, b),
            diag_view_of(),
            diag_order(),
        );
    }
    sorted
}

/// `validate` and `validate_config` report the same list: the stable sort of
/// the configuration's diagnostics, which holds every one of them, so
/// `validate` succeeds exactly when `validate_config` finds nothing.
pub proof fn lemma_validate_agrees_with_validate_config(config: AnemoiConfig)
    ensures
        sorted_diagnostics(config).len() == config_diagnostics(config).len(),
        (sorted_diagnostics(config).len() == 0) == (config_diagnostics(config).len() == 0),
{
    lemma_insertion_sort_len(config_diagnostics(config), diag_order());
}

proof fn lemma_insertion_sort_len(s: Seq<DiagView>, le: spec_fn(DiagView, DiagView) -> bool)
    ensures
        insertion_sort(s, le).len() == s.len(),
    decreases s.len(),
{
    if s.len() > 0 {
        lemma_insertion_sort_len(s.drop_first(), le);
        lemma_insert_sorted_len(insertion_sort(s.drop_first(), le), s[0], le);
    }
}

proof fn lemma_insert_sorted_len(out: Seq<DiagView>, e: DiagView, le: spec_fn(DiagView, DiagView) -> bool)
    ensures
        crate::sorting::insert_sorted(out, e, le).len() == out.len() + 1,
    decreases out.len(),
{
    if out.len() > 0 && !le(e, out[0]) {
        lemma_insert_sorted_len(out.drop_first(), e, le);
    }
}

/// The groups, models and runtimes of two configurations are the same.
pub open spec fn same_catalogue(c: AnemoiConfig, c2: AnemoiConfig) -> bool {
    &&& c.residency_groups@ == c2.residency_groups@
    &&& c.models@ == c2.models@
    &&& c.runtimes@ == c2.runtimes@
}

proof fn lemma_roster_diags_catalogue(c: AnemoiConfig, c2: AnemoiConfig, d: Seq<char>, r: Seq<ResidencyGroupId>, r2: Seq<ResidencyGroupId>, n: int)
    requires
        same_catalogue(c, c2),
        n <= r.len(),
        n <= r2.len(),
        r.take(n) == r2.take(n),
    ensures
        roster_diags(c, d, r, n) == roster_diags(c2, d, r2, n),
    decreases n,
{
    if n > 0 {
        assert(r.take(n - 1) =~= r.take(n).take(n - 1));
        assert(r2.take(n - 1) =~= r2.take(n).take(n - 1));
        assert(r[n - 1] == r.take(n)[n - 1]);
        assert(r2[n - 1] == r2.take(n)[n - 1]);
        lemma_roster_diags_catalogue(c, c2, d, r, r2, n - 1);
    }
}

proof fn lemma_member_diags_catalogue(c: AnemoiConfig, c2: AnemoiConfig, g: Seq<char>, m: Seq<ModelId>, n: int)
    requires
        same_catalogue(c, c2),
    ensures
        member_diags(c, g, m, n) == member_diags(c2, g, m, n),
    decreases n,
{
    if n > 0 {
        lemma_member_diags_catalogue(c, c2, g, m, n - 1);
    }
}

proof fn lemma_support_diags_catalogue(c: AnemoiConfig, c2: AnemoiConfig, model: Seq<char>, rts: Seq<RuntimeId>, n: int)
    requires
        same_catalogue(c, c2),
    ensures
        support_diags(c, model, rts, n) == support_diags(c2, model, rts, n),
    decreases n,
{
    if n > 0 {
        lemma_support_diags_catalogue(c, c2, model, rts, n - 1);
    }
}

proof fn lemma_resident_diags_catalogue(c: AnemoiConfig, c2: AnemoiConfig, rt: Seq<char>, res: Seq<RuntimeResidentConfig>, n: int)
    requires
        same_catalogue(c, c2),
    ensures
        resident_diags(c, rt, res, n) == resident_diags(c2, rt, res, n),
    decreases n,
{
    if n > 0 {
        lemma_resident_diags_catalogue(c, c2, rt, res, n - 1);
    }
}

proof fn lemma_groups_diags_catalogue(c: AnemoiConfig, c2: AnemoiConfig, n: int)
    requires
        same_catalogue(c, c2),
    ensures
        groups_diags(c, n) == groups_diags(c2, n),
    decreases n,
{
    if n > 0 {
        lemma_groups_diags_catalogue(c, c2, n - 1);
        let e = c.residency_groups@[n - 1];
        lemma_member_diags_catalogue(c, c2, e.0.0@, e.1.models@, e.1.models@.len() as int);
    }
}

proof fn lemma_models_diags_catalogue(c: AnemoiConfig, c2: AnemoiConfig, n: int)
    requires
        same_catalogue(c, c2),
    ensures
        models_diags(c, n) == models_diags(c2, n),
    decreases n,
{
    if n > 0 {
        lemma_models_diags_catalogue(c, c2, n - 1);
        let e = c.models@[n - 1];
        lemma_support_diags_catalogue(c, c2, e.0.0@, e.1.supported_runtimes@, e.1.supported_runtimes@.len() as int);
    }
}

proof fn lemma_runtimes_diags_catalogue(c: AnemoiConfig, c2: AnemoiConfig, n: int)
    requires
        same_catalogue(c, c2),
    ensures
        runtimes_diags(c, n) == runtimes_diags(c2, n),
    decreases n,
{
    if n > 0 {
        lemma_runtimes_diags_catalogue(c, c2, n - 1);
        let e = c.runtimes@[n - 1];
        lemma_resident_diags_catalogue(c, c2, e.0.0@, e.1.initial_residents@, e.1.initial_residents@.len() as int);
    }
}

/// The diagnostics of the first `m` domains of `c2`, which differs from the
/// clean configuration `c` only by `g` appended to the roster of domain `j`.
proof fn lemma_domains_diags_appended(c: AnemoiConfig, c2: AnemoiConfig, j: int, g: ResidencyGroupId, m: int)
    requires
        same_catalogue(c, c2),
        0 <= j < c.domains@.len(),
        0 <= m <= c.domains@.len(),
        c2.domains@.len() == c.domains@.len(),
        forall|i: int| 0 <= i < c.domains@.len() && i != j ==> #[trigger] c2.domains@[i] == c.domains@[i],
        c2.domains@[j].0 == c.domains@[j].0,
        c2.domains@[j].1.rosters@ == c.domains@[j].1.rosters@.push(g),
        !c.has_group(g.0@),
        forall|i: int| 0 <= i < c.domains@.len() ==> (#[trigger] domain_entry_diags(c, c.domains@[i])).len() == 0,
    ensures
        domains_diags(c2, m) == (if m > j {
            seq![error_diag(indexed("domains."@ + c.domains@[j].0.0@ + ".rosters"@, c.domains@[j].1.rosters@.len() as int, seq![]), quoted("unknown residency group '"@, g.0@))]
        } else {
            Seq::<DiagView>::empty()
        }),
    decreases m,
{
    if m > 0 {
        lemma_domains_diags_appended(c, c2, j, g, m - 1);
        let e = c.domains@[m - 1];
        let e2 = c2.domains@[m - 1];
        assert(domain_entry_diags(c, e).len() == 0);
        if m - 1 == j {
            let r = e.1.rosters@;
            let n = r.len() as int;
            assert(n > 0) by {
                if n == 0 {
                    assert(domain_entry_diags(c, e).len() > 0);
                }
            }
            assert(r.take(n) =~= r.push(g).take(n));
            lemma_roster_diags_catalogue(c, c2, e.0.0@, r, r.push(g), n);
            assert(roster_diags(c, e.0.0@, r, n) =~= Seq::<DiagView>::empty());
            assert(r.push(g)[n] == g);
            assert(domain_entry_diags(c2, e2) =~= seq![error_diag(indexed("domains."@ + e.0.0@ + ".rosters"@, n, seq![]), quoted("unknown residency group '"@, g.0@))]);
        } else {
            let r = e.1.rosters@;
            lemma_roster_diags_catalogue(c, c2, e.0.0@, r, r, r.len() as int);
            assert(domain_entry_diags(c2, e2) == domain_entry_diags(c, e));
            assert(domain_entry_diags(c2, e2) =~= Seq::<DiagView>::empty());
        }
        assert(domains_diags(c2, m) =~= domains_diags(c2, m - 1) + domain_entry_diags(c2, e2));
    }
}

proof fn lemma_domains_diags_each_empty(c: AnemoiConfig, m: int)
    requires
        0 <= m <= c.domains@.len(),
        domains_diags(c, m).len() == 0,
    ensures
        forall|i: int| 0 <= i < m ==> (#[trigger] domain_entry_diags(c, c.domains@[i])).len() == 0,
    decreases m,
{
    if m > 0 {
        lemma_domains_diags_each_empty(c, m - 1);
    }
}

/// Appending a group that the configuration does not define to a domain's
/// roster, in a configuration without diagnostics, yields exactly one
/// diagnostic: the unknown residency group, at the new roster index.
pub proof fn lemma_unknown_roster_group_reported(c: AnemoiConfig, c2: AnemoiConfig, j: int, g: ResidencyGroupId)
    requires
        config_diagnostics(c).len() == 0,
        0 <= j < c.domains@.len(),
        !c.has_group(g.0@),
        c2.residency_groups@ == c.residency_groups@,
        c2.models@ == c.models@,
        c2.runtimes@ == c.runtimes@,
        c2.domains@.len() == c.domains@.len(),
        forall|i: int| 0 <= i < c.domains@.len() && i != j ==> #[trigger] c2.domains@[i] == c.domains@[i],
        c2.domains@[j].0 == c.domains@[j].0,
        c2.domains@[j].1.rosters@ == c.domains@[j].1.rosters@.push(g),
    ensures
        config_diagnostics(c2) == seq![error_diag(indexed("domains."@ + c.domains@[j].0.0@ + ".rosters"@, c.domains@[j].1.rosters@.len() as int, seq![]), quoted("unknown residency group '"@, g.0@))],
        sorted_diagnostics(c2) == config_diagnostics(c2),
{
    let d = error_diag(indexed("domains."@ + c.domains@[j].0.0@ + ".rosters"@, c.domains@[j].1.rosters@.len() as int, seq![]), quoted("unknown residency group '"@, g.0@));
    lemma_domains_diags_each_empty(c, c.domains@.len() as int);
    lemma_domains_diags_appended(c, c2, j, g, c.domains@.len() as int);
    lemma_groups_diags_catalogue(c, c2, c.residency_groups@.len() as int);
    lemma_models_diags_catalogue(c, c2, c.models@.len() as int);
    lemma_runtimes_diags_catalogue(c, c2, c.runtimes@.len() as int);
    assert(config_diagnostics(c2) =~= seq![d]);
    assert(seq![d].drop_first() =~= Seq::<DiagView>::empty());
    assert(insertion_sort(seq![d].drop_first(), diag_order()) == Seq::<DiagView>::empty());
    assert(insertion_sort(seq![d], diag_order()) == insert_sorted(insertion_sort(seq![d].drop_first(), diag_order()), seq![d][0], diag_order()));
    assert(insert_sorted(Seq::<DiagView>::empty(), d, diag_order()) == seq![d]);
}

impl AnemoiConfig {
    /// `Ok` exactly when the configuration has no diagnostics; otherwise every
    /// diagnostic, sorted as `validate_config` sorts them.
    pub fn validate(&self) -> (r: Result<(), ConfigValidationError>)
        ensures
            r is Ok <==> config_diagnostics(*self).len() == 0,
            r is Ok <==> sorted_diagnostics(*self).len() == 0,
            r matches Err(e) ==> is_stable_sort(e.diagnostics@.map_values(diag_view_of()), config_diagnostics(*self), diag_order()),
            r matches Err(e) ==> e.diagnostics@.map_values(diag_view_of()) == sorted_diagnostics(*self),
    {
        let diagnostics = validate_config(self);
        if diagnostics.len() == 0 {
            Ok(())
        } else {
            Err(ConfigValidationError { diagnostics })
        }
    }
}
} // verus!
