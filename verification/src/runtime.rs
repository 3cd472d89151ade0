//! What the runtime adapters compute: the in-process mock runtime, the
//! handles that runtime operations hand back, and the snapshots built from
//! what a runtime reports.
use vstd::prelude::*;
use crate::clock::{fresh_uuid, now_millis};
use crate::llama_swap::{bytes_to_mb, normalize_model_id, normalized_model_id};
use crate::model::{
    ActiveExecution, ExecutionRequest, ModelId, ModelResident, ResidencyState, RuntimeId,
    RuntimeMemorySnapshot, RuntimeSnapshot,
};

verus! {

/// A model load that a runtime accepted; `id` is a random UUID.
#[derive(Debug, PartialEq, Eq)]
pub struct LoadHandle {
    pub id: u128,
    pub model_id: ModelId,
}

/// An execution that a runtime accepted; `id` is a random UUID.
#[derive(Debug, PartialEq, Eq)]
pub struct ExecutionHandle {
    pub id: u128,
    pub request: ExecutionRequest,
}

/// Where a forwarded chat completion goes. The token comes from the
/// environment at configuration load.
#[derive(Debug, PartialEq, Eq)]
pub struct ForwardTarget {
    pub base_url: String,
    pub auth_token: Option<String>,
}

/// A resident with no measurements and no known load time.
pub open spec fn bare_resident(model_id: ModelId, state: ResidencyState) -> ModelResident {
    ModelResident {
        model_id,
        state,
        vram_mb: None,
        ram_mb: None,
        kv_cache_mb: None,
        loaded_since: None,
    }
}

/// Whether some resident holds model `m`.
pub open spec fn holds_model(residents: Seq<ModelResident>, m: Seq<char>) -> bool {
    exists|i: int| 0 <= i < residents.len() && (#[trigger] residents[i]).model_id.0@ == m
}

/// The index of the first resident holding model `m`.
pub open spec fn first_holding(residents: Seq<ModelResident>, m: Seq<char>, i: int) -> bool {
    &&& 0 <= i < residents.len()
    &&& residents[i].model_id.0@ == m
    &&& forall|j: int| 0 <= j < i ==> (#[trigger] residents[j]).model_id.0@ != m
}

/// The residents after setting model `model`'s state: the first resident
/// holding it changes state, or a bare resident is appended.
pub open spec fn residents_with_state(residents: Seq<ModelResident>, model: ModelId, state: ResidencyState) -> Seq<ModelResident> {
    if holds_model(residents, model.0@) {
        let i = choose|i: int| first_holding(residents, model.0@, i);
        residents.update(i, ModelResident { state, ..residents[i] })
    } else {
        residents.push(bare_resident(model, state))
    }
}

/// The residents after loading `model`: a loading resident is added unless
/// some resident already holds it.
pub open spec fn residents_after_load(residents: Seq<ModelResident>, model: ModelId) -> Seq<ModelResident> {
    if holds_model(residents, model.0@) {
        residents
    } else {
        residents.push(bare_resident(model, ResidencyState::Loading))
    }
}

/// The residents without model `m`.
pub open spec fn residents_without(residents: Seq<ModelResident>, m: Seq<char>) -> Seq<ModelResident> {
    residents.filter(|r: ModelResident| r.model_id.0@ != m)
}

/// The first resident holding `m`, if any.
fn find_resident(residents: &Vec<ModelResident>, m: &ModelId) -> (r: Option<usize>)
    ensures
        match r {
            Some(i) => first_holding(residents@, m.0@, i as int),
            None => !holds_model(residents@, m.0@),
        },
{
    let mut i: usize = 0;
    while i < residents.len()
        invariant
            i <= residents@.len(),
            forall|j: int| 0 <= j < i ==> (#[trigger] residents@[j]).model_id.0@ != m.0@,
        decreases residents@.len() - i,
    {
        if residents[i].model_id.same(m) {
            return Some(i);
        }
        i = i + 1;
    }
    None
}

proof fn lemma_first_holding_unique(residents: Seq<ModelResident>, m: Seq<char>, i: int, j: int)
    requires
        first_holding(residents, m, i),
        first_holding(residents, m, j),
    ensures
        i == j,
{
    if i < j {
        assert(residents[i].model_id.0@ != m);
    } else if j < i {
        assert(residents[j].model_id.0@ != m);
    }
}

/// An in-process runtime whose state is a snapshot it edits itself: loads
/// add a loading resident, unloads remove residents, executions are
/// recorded as active requests.
#[derive(Debug)]
pub struct MockRuntimeAdapter {
    id: RuntimeId,
    snapshot: RuntimeSnapshot,
}

impl View for MockRuntimeAdapter {
    type V = RuntimeSnapshot;

    closed spec fn view(&self) -> RuntimeSnapshot {
        self.snapshot
    }
}

impl MockRuntimeAdapter {
    /// The runtime's id.
    pub closed spec fn runtime_id(&self) -> RuntimeId {
        self.id
    }

    /// A mock runtime that is available and holds `residents`.
    pub fn new(id: RuntimeId, residents: Vec<ModelResident>) -> (r: Self)
        ensures
            r.runtime_id() == id,
            r@.runtime_id == id,
            r@.available,
            r@.residents@ == residents@,
            r@.configured_models@.len() == 0,
            r@.memory == RuntimeMemorySnapshot::none_reported(),
            r@.active_requests@.len() == 0,
    {
        let rid = id.clone();
        MockRuntimeAdapter {
            id,
            snapshot: RuntimeSnapshot {
                runtime_id: rid,
                available: true,
                residents,
                configured_models: Vec::new(),
                memory: RuntimeMemorySnapshot::unknown(),
                active_requests: Vec::new(),
            },
        }
    }

    /// The runtime's id.
    pub fn id(&self) -> (r: RuntimeId)
        ensures
            r == self.runtime_id(),
    {
        self.id.clone()
    }

    /// The same runtime reporting `memory`.
    pub fn with_memory(self, memory: RuntimeMemorySnapshot) -> (r: Self)
        ensures
            r.runtime_id() == self.runtime_id(),
            r@ == (RuntimeSnapshot { memory, ..self@ }),
    {
        let mut s = self;
        s.snapshot.memory = memory;
        s
    }

    /// The same runtime, available or not.
    pub fn with_available(self, available: bool) -> (r: Self)
        ensures
            r.runtime_id() == self.runtime_id(),
            r@ == (RuntimeSnapshot { available, ..self@ }),
    {
        let mut s = self;
        s.snapshot.available = available;
        s
    }

    /// The same runtime with model `model_id` in `state`: the first resident
    /// holding it changes state, or a bare resident is added.
    pub fn with_resident_state(self, model_id: ModelId, state: ResidencyState) -> (r: Self)
        ensures
            r.runtime_id() == self.runtime_id(),
            r@.residents@ == residents_with_state(self@.residents@, model_id, state),
            r@.runtime_id == self@.runtime_id,
            r@.available == self@.available,
            r@.configured_models == self@.configured_models,
            r@.memory == self@.memory,
            r@.active_requests == self@.active_requests,
    {
        let mut s = self;
        let ghost before = s.snapshot.residents@;
        match find_resident(&s.snapshot.residents, &model_id) {
            Some(i) => {
                let mut resident = s.snapshot.residents[i].clone();
                resident.state = state;
                s.snapshot.residents.set(i, resident);
                proof {
                    let c = choose|c: int| first_holding(before, model_id.0@, c);
                    lemma_first_holding_unique(before, model_id.0@, i as int, c);
                }
            },
            None => {
                s.snapshot.residents.push(
                    ModelResident {
                        model_id,
                        state,
                        vram_mb: None,
                        ram_mb: None,
                        kv_cache_mb: None,
                        loaded_since: None,
                    },
                );
            },
        }
        s
    }

    /// What the runtime currently reports.
    pub fn inspect(&self) -> (r: RuntimeSnapshot)
        ensures
            r.same(self@),
    {
        self.snapshot.clone()
    }

    /// Starts loading `model`: a loading resident is added unless some
    /// resident already holds it. The handle carries a fresh random id.
    pub fn load_model(&mut self, model: &ModelId) -> (r: LoadHandle)
        ensures
            r.model_id == *model,
            final(self).runtime_id() == old(self).runtime_id(),
            final(self)@.residents@ == residents_after_load(old(self)@.residents@, *model),
            final(self)@.runtime_id == old(self)@.runtime_id,
            final(self)@.available == old(self)@.available,
            final(self)@.configured_models == old(self)@.configured_models,
            final(self)@.memory == old(self)@.memory,
            final(self)@.active_requests == old(self)@.active_requests,
    {
        match find_resident(&self.snapshot.residents, model) {
            Some(_) => {},
            None => {
                self.snapshot.residents.push(
                    ModelResident {
                        model_id: model.clone(),
                        state: ResidencyState::Loading,
                        vram_mb: None,
                        ram_mb: None,
                        kv_cache_mb: None,
                        loaded_since: None,
                    },
                );
            },
        }
        LoadHandle { id: fresh_uuid(), model_id: model.clone() }
    }

    /// Removes every resident holding `model`.
    pub fn unload_model(&mut self, model: &ModelId)
        ensures
            final(self).runtime_id() == old(self).runtime_id(),
            final(self)@.residents@ == residents_without(old(self)@.residents@, model.0@),
            final(self)@.runtime_id == old(self)@.runtime_id,
            final(self)@.available == old(self)@.available,
            final(self)@.configured_models == old(self)@.configured_models,
            final(self)@.memory == old(self)@.memory,
            final(self)@.active_requests == old(self)@.active_requests,
    {
        let ghost before = self.snapshot.residents@;
        let ghost keep = |r: ModelResident| r.model_id.0@ != model.0@;
        let mut kept: Vec<ModelResident> = Vec::new();
        let mut i: usize = 0;
        while i < self.snapshot.residents.len()
            invariant
                i <= before.len(),
                before == self.snapshot.residents@,
                keep == (|r: ModelResident| r.model_id.0@ != model.0@),
                kept@ == before.take(i as int).filter(keep),
            decreases before.len() - i,
        {
            proof {
                assert(before.take(i + 1).drop_last() =~= before.take(i as int));
                reveal(Seq::filter);
            }
            if !self.snapshot.residents[i].model_id.same(model) {
                kept.push(self.snapshot.residents[i].clone());
            }
            i = i + 1;
        }
        proof {
            assert(before.take(before.len() as int) =~= before);
        }
        self.snapshot.residents = kept;
    }

    /// Records `request` as running on this runtime, started now. The handle
    /// carries the request and a fresh random id.
    pub fn execute(&mut self, request: ExecutionRequest) -> (r: ExecutionHandle)
        ensures
            r.request == request,
            final(self).runtime_id() == old(self).runtime_id(),
            final(self)@.active_requests@.len() == old(self)@.active_requests@.len() + 1,
            final(self)@.active_requests@.take(old(self)@.active_requests@.len() as int)
                == old(self)@.active_requests@,
            final(self)@.active_requests@.last().request_id == request.request_id,
            final(self)@.active_requests@.last().model_id == request.model_id,
            final(self)@.runtime_id == old(self)@.runtime_id,
            final(self)@.available == old(self)@.available,
            final(self)@.residents == old(self)@.residents,
            final(self)@.configured_models == old(self)@.configured_models,
            final(self)@.memory == old(self)@.memory,
    {
        let ghost before = self.snapshot.active_requests@;
        let started_at = now_millis();
        self.snapshot.active_requests.push(
            ActiveExecution {
                request_id: request.request_id.clone(),
                model_id: request.model_id.clone(),
                started_at,
            },
        );
        proof {
            assert(self.snapshot.active_requests@.take(before.len() as int) =~= before);
        }
        ExecutionHandle { id: fresh_uuid(), request }
    }
}

/// One model that Ollama's `/api/ps` reports running, sizes in bytes.
#[derive(Debug, PartialEq, Eq)]
pub struct OllamaRunningModel {
    pub name: String,
    pub size_vram: Option<u64>,
    pub size: Option<u64>,
}

pub open spec fn mb_of(bytes: Option<u64>) -> Option<u64> {
    match bytes {
        Some(b) => Some((b as int / 1048576) as u64),
        None => None,
    }
}

/// Residents from Ollama's running models: each hot on GPU under its
/// reported name, with VRAM and RAM converted to mebibytes.
pub fn ollama_residents(models: &Vec<OllamaRunningModel>) -> (r: Vec<ModelResident>)
    ensures
        r@.len() == models@.len(),
        forall|i: int| 0 <= i < r@.len() ==> {
            &&& (#[trigger] r@[i]).model_id.0 == models@[i].name
            &&& r@[i].state == ResidencyState::HotGpu
            &&& r@[i].vram_mb == mb_of(models@[i].size_vram)
            &&& r@[i].ram_mb == mb_of(models@[i].size)
            &&& r@[i].kv_cache_mb is None
            &&& r@[i].loaded_since is None
        },
{
    let mut out: Vec<ModelResident> = Vec::new();
    let mut i: usize = 0;
    while i < models.len()
        invariant
            i <= models@.len(),
            out@.len() == i,
            forall|k: int| 0 <= k < i ==> {
                &&& (#[trigger] out@[k]).model_id.0 == models@[k].name
                &&& out@[k].state == ResidencyState::HotGpu
                &&& out@[k].vram_mb == mb_of(models@[k].size_vram)
                &&& out@[k].ram_mb == mb_of(models@[k].size)
                &&& out@[k].kv_cache_mb is None
                &&& out@[k].loaded_since is None
            },
        decreases models@.len() - i,
    {
        let m = &models[i];
        let vram = match m.size_vram {
            Some(b) => Some(bytes_to_mb(b)),
            None => None,
        };
        let ram = match m.size {
            Some(b) => Some(bytes_to_mb(b)),
            None => None,
        };
        out.push(
            ModelResident {
                model_id: ModelId(m.name.clone()),
                state: ResidencyState::HotGpu,
                vram_mb: vram,
                ram_mb: ram,
                kv_cache_mb: None,
                loaded_since: None,
            },
        );
        i = i + 1;
    }
    out
}

/// The model ids a runtime reports as configured, each normalized.
pub fn configured_model_ids(ids: &Vec<String>) -> (r: Vec<ModelId>)
    ensures
        r@.len() == ids@.len(),
        forall|i: int| 0 <= i < r@.len() ==> (#[trigger] r@[i]).0@ == normalized_model_id(ids@[i]@),
{
    let mut out: Vec<ModelId> = Vec::new();
    let mut i: usize = 0;
    while i < ids.len()
        invariant
            i <= ids@.len(),
            out@.len() == i,
            forall|j: int| 0 <= j < i ==> (#[trigger] out@[j]).0@ == normalized_model_id(ids@[j]@),
        decreases ids@.len() - i,
    {
        out.push(normalize_model_id(ids[i].as_str()));
        i = i + 1;
    }
    out
}

/// The snapshot of a runtime that answered: available, with the residents
/// and configured models observed, no memory figures and no active requests.
pub fn observed_snapshot(runtime_id: RuntimeId, residents: Vec<ModelResident>, configured_models: Vec<ModelId>) -> (r: RuntimeSnapshot)
    ensures
        r.runtime_id == runtime_id,
        r.available,
        r.residents == residents,
        r.configured_models == configured_models,
        r.memory == RuntimeMemorySnapshot::none_reported(),
        r.active_requests@.len() == 0,
{
    RuntimeSnapshot {
        runtime_id,
        available: true,
        residents,
        configured_models,
        memory: RuntimeMemorySnapshot::unknown(),
        active_requests: Vec::new(),
    }
}

/// Loading is idempotent: after one load the model is held, so loading it
/// again changes nothing.
pub proof fn lemma_load_once(residents: Seq<ModelResident>, model: ModelId)
    ensures
        holds_model(residents_after_load(residents, model), model.0@),
        residents_after_load(residents_after_load(residents, model), model) == residents_after_load(residents, model),
{
    let r = residents.push(bare_resident(model, ResidencyState::Loading));
    assert(r[residents.len() as int].model_id.0@ == model.0@);
}

/// Unloading removes every resident holding the model and keeps the rest in
/// order.
pub proof fn lemma_unload_removes_model(residents: Seq<ModelResident>, m: Seq<char>)
    ensures
        !holds_model(residents_without(residents, m), m),
        forall|i: int| 0 <= i < residents.len() && (#[trigger] residents[i]).model_id.0@ != m ==> residents_without(residents, m).contains(residents[i]),
{
    broadcast use vstd::seq_lib::group_filter_ensures;
    let f = residents_without(residents, m);
    if holds_model(f, m) {
        let i = choose|i: int| 0 <= i < f.len() && (#[trigger] f[i]).model_id.0@ == m;
        assert((|r: ModelResident| r.model_id.0@ != m)(f[i]));
    }
}

} // verus!
