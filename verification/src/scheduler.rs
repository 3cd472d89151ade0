//! Candidate generation, scoring and placement decisions.
use vstd::prelude::*;
use crate::config::{AnemoiConfig, ModelProfileConfig};
use crate::keyed::{has_key, is_first_key, key_index, lemma_first_key_unique};
use crate::model::{
    DecisionAction, DecisionReason, DecisionScore, DomainId, InferenceRequest, ModelId, ScoreContribution, residency_state_debug, residency_state_debug_name, Decision, decision_action_debug, decision_action_debug_name, Explanation, ModelProfile, ModelResident, RejectedOption,
    ResidencyGroupId, ResidencyState, RuntimeId, RuntimeMemorySnapshot, RuntimeSnapshot,
};
use crate::clock::{fresh_uuid, now_millis};
use crate::sorting::{by_key_desc, insertion_sort, is_first_max, is_first_with, lemma_first_max_leads_sort};
use crate::text::{lemma_text_le_antisymmetric, lemma_text_le_total, lemma_text_le_transitive, str_le, text_le, chars_of, decimal, owned, push_decimal, push_str, str_eq};

verus! {

/// Why no decision could be made for a request.
#[derive(Debug, PartialEq, Eq)]
pub enum PolicyError {
    /// The request names a domain the configuration does not define.
    UnknownDomain(DomainId),
    /// The domain's roster names no residency group.
    EmptyRoster(DomainId),
}

/// One way to serve a request: a model on a runtime, with what is known of
/// its residency.
#[derive(Debug, PartialEq, Eq)]
pub struct Candidate {
    pub action: DecisionAction,
    pub model_id: ModelId,
    pub runtime_id: RuntimeId,
    pub group_id: ResidencyGroupId,
    pub model_profile: ModelProfile,
    pub residency_state: ResidencyState,
    pub load_estimate_ms: u64,
    pub runtime_memory: RuntimeMemorySnapshot,
    pub group_keep_hot: bool,
}

impl Clone for Candidate {
    fn clone(&self) -> (r: Self)
        ensures
            r.same(*self),
    {
        Candidate {
            action: self.action,
            model_id: self.model_id.clone(),
            runtime_id: self.runtime_id.clone(),
            group_id: self.group_id.clone(),
            model_profile: self.model_profile.clone(),
            residency_state: self.residency_state,
            load_estimate_ms: self.load_estimate_ms,
            runtime_memory: self.runtime_memory.clone(),
            group_keep_hot: self.group_keep_hot,
        }
    }
}

impl Candidate {
    /// Field-wise equality, the profile compared by its contents.
    pub open spec fn same(self, o: Self) -> bool {
        &&& self.action == o.action
        &&& self.model_id == o.model_id
        &&& self.runtime_id == o.runtime_id
        &&& self.group_id == o.group_id
        &&& self.model_profile.same(o.model_profile)
        &&& self.residency_state == o.residency_state
        &&& self.load_estimate_ms == o.load_estimate_ms
        &&& self.runtime_memory == o.runtime_memory
        &&& self.group_keep_hot == o.group_keep_hot
    }
}

/// The candidates for a request and the options that were rejected, both in
/// roster order.
#[derive(Debug, PartialEq, Eq)]
pub struct CandidateSet {
    pub candidates: Vec<Candidate>,
    pub rejected_options: Vec<RejectedOption>,
}

/// Places requests on models and runtimes according to a configuration.
#[derive(Debug, PartialEq, Eq)]
pub struct Scheduler {
    pub config: AnemoiConfig,
}

impl Scheduler {
    /// A scheduler governed by `config`.
    pub fn new(config: AnemoiConfig) -> (r: Self)
        ensures
            r.config == config,
    {
        Scheduler { config }
    }
}

/// The plain content of a rejected option.
pub type RejectedView = (Option<Seq<char>>, Option<Seq<char>>, Seq<char>);

pub open spec fn rejected_view(o: RejectedOption) -> RejectedView {
    (
        match o.model_id {
            Some(m) => Some(m.0@),
            None => None,
        },
        match o.runtime_id {
            Some(r) => Some(r.0@),
            None => None,
        },
        o.reason@,
    )
}

pub open spec fn rejected_view_of() -> spec_fn(RejectedOption) -> RejectedView {
    |o: RejectedOption| rejected_view(o)
}

pub open spec fn resident_key() -> spec_fn(ModelResident) -> Seq<char> {
    |r: ModelResident| r.model_id.0@
}

/// Available snapshots are keyed by their runtime; unavailable ones by nothing.
pub open spec fn available_key() -> spec_fn(RuntimeSnapshot) -> Option<Seq<char>> {
    |s: RuntimeSnapshot| if s.available { Some(s.runtime_id.0@) } else { None }
}

/// The state a snapshot reports for `model`: that of its first resident
/// entry for the model, or `Cold` when it reports none.
pub open spec fn state_in(snap: RuntimeSnapshot, model: Seq<char>) -> ResidencyState {
    if has_key(snap.residents@, resident_key(), model) {
        snap.residents@[key_index(snap.residents@, resident_key(), model)].state
    } else {
        ResidencyState::Cold
    }
}

/// The action a residency state calls for.
pub open spec fn action_for(state: ResidencyState) -> DecisionAction {
    match state {
        ResidencyState::HotGpu | ResidencyState::Serving => DecisionAction::ReuseHot,
        ResidencyState::WarmCpu | ResidencyState::Partial | ResidencyState::Loading => DecisionAction::PromoteWarm,
        ResidencyState::Cold | ResidencyState::Failed => DecisionAction::ColdLoad,
        ResidencyState::Draining | ResidencyState::Evicting => DecisionAction::Defer,
    }
}

/// The load time estimate for an action: the model's cold-load estimate
/// (30 s when unknown) for a cold load, a third of it (of 10 s when unknown)
/// to promote a warm model, nothing otherwise.
pub open spec fn load_estimate_for(action: DecisionAction, cold_load_estimate_ms: Option<u64>) -> u64 {
    match action {
        DecisionAction::ColdLoad => match cold_load_estimate_ms {
            Some(ms) => ms,
            None => 30_000,
        },
        DecisionAction::PromoteWarm => match cold_load_estimate_ms {
            Some(ms) => (ms / 3) as u64,
            None => 3_333,
        },
        _ => 0,
    }
}

/// `p` is the profile of model `id` described by the configuration entry `m`.
pub open spec fn profile_matches(p: ModelProfile, id: Seq<char>, m: ModelProfileConfig) -> bool {
    &&& p.id.0@ == id
    &&& p.family == m.family
    &&& p.parameter_class == m.parameter_class
    &&& p.context_window == m.context_window
    &&& p.vram_required_mb == m.vram_required_mb
    &&& p.ram_required_mb == m.ram_required_mb
    &&& p.cold_load_estimate_ms == m.cold_load_estimate_ms
    &&& p.supported_runtimes@ == m.supported_runtimes@
    &&& p.supports_streaming == m.supports_streaming
}

/// A candidate is identified by its group, model, runtime and the index of
/// the snapshot it was read from.
pub type CandidateKey = (Seq<char>, Seq<char>, Seq<char>, int);

/// `c` is the candidate for key `k`.
pub open spec fn candidate_ok(c: Candidate, k: CandidateKey, cfg: AnemoiConfig, snaps: Seq<RuntimeSnapshot>) -> bool {
    let snap = snaps[k.3];
    let m = cfg.model(k.1);
    let state = state_in(snap, k.1);
    &&& 0 <= k.3 < snaps.len()
    &&& cfg.has_model(k.1)
    &&& c.group_id.0@ == k.0
    &&& c.model_id.0@ == k.1
    &&& c.runtime_id.0@ == k.2
    &&& profile_matches(c.model_profile, k.1, m)
    &&& c.residency_state == state
    &&& c.action == action_for(state)
    &&& c.load_estimate_ms == load_estimate_for(action_for(state), m.cold_load_estimate_ms)
    &&& c.runtime_memory == snap.memory
    &&& c.group_keep_hot == cfg.group(k.0).keep_hot
}

/// The available snapshots serving the first `n` supported runtimes, in the
/// order the runtimes are listed: `(runtime, snapshot index)`.
pub open spec fn runtime_matches(rts: Seq<RuntimeId>, snaps: Seq<RuntimeSnapshot>, n: int) -> Seq<(Seq<char>, int)>
    decreases n,
{
    if n <= 0 {
        seq![]
    } else {
        runtime_matches(rts, snaps, n - 1) + if has_key(snaps, available_key(), Some(rts[n - 1].0@)) {
            seq![(rts[n - 1].0@, key_index(snaps, available_key(), Some(rts[n - 1].0@)))]
        } else {
            seq![]
        }
    }
}

pub open spec fn no_profile_reason() -> Seq<char> {
    "model is referenced by a residency group but has no profile"@
}

pub open spec fn no_runtime_reason() -> Seq<char> {
    "no supported runtime is currently available"@
}

/// Candidates and rejections for the first `n` members of group `gid`.
pub open spec fn member_outcome(cfg: AnemoiConfig, gid: Seq<char>, members: Seq<ModelId>, snaps: Seq<RuntimeSnapshot>, n: int) -> (Seq<CandidateKey>, Seq<RejectedView>)
    decreases n,
{
    if n <= 0 {
        (seq![], seq![])
    } else {
        let prev = member_outcome(cfg, gid, members, snaps, n - 1);
        let m = members[n - 1].0@;
        if !cfg.has_model(m) {
            (prev.0, prev.1.push((Some(m), None, no_profile_reason())))
        } else {
            let rts = cfg.model(m).supported_runtimes@;
            let matches = runtime_matches(rts, snaps, rts.len() as int);
            if matches.len() == 0 {
                (prev.0, prev.1.push((Some(m), None, no_runtime_reason())))
            } else {
                (prev.0 + matches.map_values(|x: (Seq<char>, int)| (gid, m, x.0, x.1)), prev.1)
            }
        }
    }
}

/// Candidates and rejections for the first `n` roster entries; roster entries
/// naming no configured group contribute nothing.
pub open spec fn roster_outcome(cfg: AnemoiConfig, roster: Seq<ResidencyGroupId>, snaps: Seq<RuntimeSnapshot>, n: int) -> (Seq<CandidateKey>, Seq<RejectedView>)
    decreases n,
{
    if n <= 0 {
        (seq![], seq![])
    } else {
        let prev = roster_outcome(cfg, roster, snaps, n - 1);
        let g = roster[n - 1].0@;
        if cfg.has_group(g) {
            let members = cfg.group(g).models@;
            let more = member_outcome(cfg, g, members, snaps, members.len() as int);
            (prev.0 + more.0, prev.1 + more.1)
        } else {
            prev
        }
    }
}

/// `set` holds exactly the candidates and rejections of the outcome `o`.
pub open spec fn outcome_holds(cands: Seq<Candidate>, rejected: Seq<RejectedOption>, o: (Seq<CandidateKey>, Seq<RejectedView>), cfg: AnemoiConfig, snaps: Seq<RuntimeSnapshot>) -> bool {
    &&& cands.len() == o.0.len()
    &&& forall|i: int| 0 <= i < cands.len() ==> candidate_ok(#[trigger] cands[i], o.0[i], cfg, snaps)
    &&& rejected.map_values(rejected_view_of()) == o.1
}

/// The first available snapshot of runtime `rt`.
fn find_available_snapshot(snaps: &Vec<RuntimeSnapshot>, rt: &str) -> (r: Option<usize>)
    ensures
        r is Some == has_key(snaps@, available_key(), Some(rt@)),
        r matches Some(i) ==> i == key_index(snaps@, available_key(), Some(rt@)) && is_first_key(snaps@, available_key(), Some(rt@), i as int),
{
    let mut i: usize = 0;
    while i < snaps.len()
        invariant
            i <= snaps@.len(),
            forall|j: int| 0 <= j < i ==> (available_key())(#[trigger] snaps@[j]) != Some(rt@),
        decreases snaps@.len() - i,
    {
        if snaps[i].available && str_eq(snaps[i].runtime_id.0.as_str(), rt) {
            proof {
                assert(is_first_key(snaps@, available_key(), Some(rt@), i as int));
                lemma_first_key_unique(snaps@, available_key(), Some(rt@), i as int);
            }
            return Some(i);
        }
        i = i + 1;
    }
    None
}

/// The state `snap` reports for `model`.
fn resident_state(snap: &RuntimeSnapshot, model: &str) -> (r: ResidencyState)
    ensures
        r == state_in(*snap, model@),
{
    let mut i: usize = 0;
    while i < snap.residents.len()
        invariant
            i <= snap.residents@.len(),
            forall|j: int| 0 <= j < i ==> (resident_key())(#[trigger] snap.residents@[j]) != model@,
        decreases snap.residents@.len() - i,
    {
        if str_eq(snap.residents[i].model_id.0.as_str(), model) {
            proof {
                assert(is_first_key(snap.residents@, resident_key(), model@, i as int));
                lemma_first_key_unique(snap.residents@, resident_key(), model@, i as int);
            }
            return snap.residents[i].state;
        }
        i = i + 1;
    }
    ResidencyState::Cold
}

/// The candidate for `model` of group `group_id` on the runtime of `snapshot`.
fn generate_candidate(
    group_id: &ResidencyGroupId,
    keep_hot: bool,
    model: &ModelProfile,
    runtime_id: &RuntimeId,
    snapshot: &RuntimeSnapshot,
) -> (c: Candidate)
    ensures
        c.group_id == *group_id,
        c.model_id == model.id,
        c.runtime_id == *runtime_id,
        c.model_profile.same(*model),
        c.residency_state == state_in(*snapshot, model.id.0@),
        c.action == action_for(c.residency_state),
        c.load_estimate_ms == load_estimate_for(c.action, model.cold_load_estimate_ms),
        c.runtime_memory == snapshot.memory,
        c.group_keep_hot == keep_hot,
{
    let state = resident_state(snapshot, model.id.0.as_str());
    let action = match state {
        ResidencyState::HotGpu | ResidencyState::Serving => DecisionAction::ReuseHot,
        ResidencyState::WarmCpu | ResidencyState::Partial | ResidencyState::Loading => DecisionAction::PromoteWarm,
        ResidencyState::Cold | ResidencyState::Failed => DecisionAction::ColdLoad,
        ResidencyState::Draining | ResidencyState::Evicting => DecisionAction::Defer,
    };
    let load_estimate_ms = match action {
        DecisionAction::ColdLoad => match model.cold_load_estimate_ms {
            Some(ms) => ms,
            None => 30_000,
        },
        DecisionAction::PromoteWarm => match model.cold_load_estimate_ms {
            Some(ms) => ms / 3,
            None => 10_000 / 3,
        },
        _ => 0,
    };
    Candidate {
        action,
        model_id: model.id.clone(),
        runtime_id: runtime_id.clone(),
        group_id: group_id.clone(),
        model_profile: model.clone(),
        residency_state: state,
        load_estimate_ms,
        runtime_memory: snapshot.memory.clone(),
        group_keep_hot: keep_hot,
    }
}

fn reject(model_id: &ModelId, reason: &str) -> (r: RejectedOption)
    ensures
        rejected_view(r) == (Some(model_id.0@), Option::<Seq<char>>::None, reason@),
{
    RejectedOption { model_id: Some(model_id.clone()), runtime_id: None, reason: owned(reason) }
}

/// Adds the candidates and rejection for one group member.
fn add_member(
    cfg: &AnemoiConfig,
    group_id: &ResidencyGroupId,
    keep_hot: bool,
    model_id: &ModelId,
    snaps: &Vec<RuntimeSnapshot>,
    cands: &mut Vec<Candidate>,
    rejected: &mut Vec<RejectedOption>,
    Ghost(keys): Ghost<Seq<CandidateKey>>,
) -> (new_keys: Ghost<Seq<CandidateKey>>)
    requires
        keep_hot == cfg.group(group_id.0@).keep_hot,
        old(cands)@.len() == keys.len(),
        forall|i: int| 0 <= i < keys.len() ==> candidate_ok(#[trigger] old(cands)@[i], keys[i], *cfg, snaps@),
    ensures
        ({
            let m = model_id.0@;
            let o = if !cfg.has_model(m) {
                (keys, old(rejected)@.map_values(rejected_view_of()).push((Some(m), None, no_profile_reason())))
            } else {
                let rts = cfg.model(m).supported_runtimes@;
                let matches = runtime_matches(rts, snaps@, rts.len() as int);
                if matches.len() == 0 {
                    (keys, old(rejected)@.map_values(rejected_view_of()).push((Some(m), None, no_runtime_reason())))
                } else {
                    (keys + matches.map_values(|x: (Seq<char>, int)| (group_id.0@, m, x.0, x.1)), old(rejected)@.map_values(rejected_view_of()))
                }
            };
            outcome_holds(final(cands)@, final(rejected)@, o, *cfg, snaps@) && new_keys@ == o.0
        }),
{
    let ghost old_rej = rejected@;
    let m = match cfg.find_model(model_id.0.as_str()) {
        Some(m) => m,
        None => {
            rejected.push(reject(model_id, "model is referenced by a residency group but has no profile"));
            proof {
                assert(rejected@.map_values(rejected_view_of()) =~= old_rej.map_values(rejected_view_of()).push((Some(model_id.0@), None, no_profile_reason())));
            }
            return Ghost(keys);
        }
    };
    let profile = m.clone().into_profile(model_id.clone());
    let ghost rts = m.supported_runtimes@;
    let start = cands.len();
    let ghost mut new_keys = keys;
    let mut i: usize = 0;
    while i < m.supported_runtimes.len()
        invariant
            *m == cfg.model(model_id.0@),
            cfg.has_model(model_id.0@),
            rts == m.supported_runtimes@,
            profile_matches(profile, model_id.0@, *m),
            i <= rts.len(),
            keep_hot == cfg.group(group_id.0@).keep_hot,
            rejected@ == old_rej,
            new_keys == keys + runtime_matches(rts, snaps@, i as int).map_values(|x: (Seq<char>, int)| (group_id.0@, model_id.0@, x.0, x.1)),
            cands@.len() == new_keys.len(),
            forall|j: int| 0 <= j < new_keys.len() ==> candidate_ok(#[trigger] cands@[j], new_keys[j], *cfg, snaps@),
        decreases rts.len() - i,
    {
        let rt = &m.supported_runtimes[i];
        let found = find_available_snapshot(snaps, rt.0.as_str());
        let ghost before = new_keys;
        match found {
            Some(si) => {
                let c = generate_candidate(group_id, keep_hot, &profile, rt, &snaps[si]);
                cands.push(c);
                proof {
                    new_keys = before.push((group_id.0@, model_id.0@, rt.0@, si as int));
                    assert(runtime_matches(rts, snaps@, i + 1) == runtime_matches(rts, snaps@, i as int) + seq![(rts[i as int].0@, si as int)]);
                    assert(new_keys =~= keys + runtime_matches(rts, snaps@, i + 1).map_values(|x: (Seq<char>, int)| (group_id.0@, model_id.0@, x.0, x.1)));
                    let k = new_keys[new_keys.len() - 1];
                    assert(candidate_ok(cands@[new_keys.len() - 1], k, *cfg, snaps@));
                }
            },
            None => {
                proof {
                    assert(runtime_matches(rts, snaps@, i + 1) =~= runtime_matches(rts, snaps@, i as int));
                }
            },
        }
        i = i + 1;
    }
    proof {
        assert(runtime_matches(rts, snaps@, rts.len() as int).len() == 0 ==> new_keys =~= keys);
    }
    if cands.len() == start {
        proof {
            let matches = runtime_matches(rts, snaps@, rts.len() as int);
            assert(matches.map_values(|x: (Seq<char>, int)| (group_id.0@, model_id.0@, x.0, x.1)).len() == 0);
        }
        rejected.push(reject(model_id, "no supported runtime is currently available"));
        proof {
            assert(rejected@.map_values(rejected_view_of()) =~= old_rej.map_values(rejected_view_of()).push((Some(model_id.0@), None, no_runtime_reason())));
        }
    }
    Ghost(new_keys)
}


/// Adds the candidates and rejections of every member of group `group_id`.
fn add_group(
    cfg: &AnemoiConfig,
    group_id: &ResidencyGroupId,
    snaps: &Vec<RuntimeSnapshot>,
    cands: &mut Vec<Candidate>,
    rejected: &mut Vec<RejectedOption>,
    Ghost(keys): Ghost<Seq<CandidateKey>>,
) -> (new_keys: Ghost<Seq<CandidateKey>>)
    requires
        cfg.has_group(group_id.0@),
        old(cands)@.len() == keys.len(),
        forall|i: int| 0 <= i < keys.len() ==> candidate_ok(#[trigger] old(cands)@[i], keys[i], *cfg, snaps@),
    ensures
        ({
            let members = cfg.group(group_id.0@).models@;
            let more = member_outcome(*cfg, group_id.0@, members, snaps@, members.len() as int);
            let o = (keys + more.0, old(rejected)@.map_values(rejected_view_of()) + more.1);
            outcome_holds(final(cands)@, final(rejected)@, o, *cfg, snaps@) && new_keys@ == o.0
        }),
{
    let group = cfg.find_group(group_id.0.as_str()).unwrap();
    let ghost members = group.models@;
    let ghost old_rej = rejected@.map_values(rejected_view_of());
    let ghost mut cur = keys;
    let mut i: usize = 0;
    assert(old_rej =~= old_rej + member_outcome(*cfg, group_id.0@, members, snaps@, 0).1);
    assert(keys =~= keys + member_outcome(*cfg, group_id.0@, members, snaps@, 0).0);
    while i < group.models.len()
        invariant
            *group == cfg.group(group_id.0@),
            members == group.models@,
            i <= members.len(),
            cur == keys + member_outcome(*cfg, group_id.0@, members, snaps@, i as int).0,
            rejected@.map_values(rejected_view_of()) == old_rej + member_outcome(*cfg, group_id.0@, members, snaps@, i as int).1,
            cands@.len() == cur.len(),
            forall|j: int| 0 <= j < cur.len() ==> candidate_ok(#[trigger] cands@[j], cur[j], *cfg, snaps@),
        decreases members.len() - i,
    {
        let ghost prev = cur;
        let ghost prev_rej = rejected@;
        let nk = add_member(cfg, group_id, group.keep_hot, &group.models[i], snaps, cands, rejected, Ghost(cur));
        proof {
            cur = nk@;
            let m = members[i as int].0@;
            let po = member_outcome(*cfg, group_id.0@, members, snaps@, i as int);
            if !cfg.has_model(m) {
                assert(rejected@.map_values(rejected_view_of()) =~= old_rej + member_outcome(*cfg, group_id.0@, members, snaps@, i + 1).1);
                assert(cur =~= keys + member_outcome(*cfg, group_id.0@, members, snaps@, i + 1).0);
            } else {
                let rts = cfg.model(m).supported_runtimes@;
                let matches = runtime_matches(rts, snaps@, rts.len() as int);
                if matches.len() == 0 {
                    assert(rejected@.map_values(rejected_view_of()) =~= old_rej + member_outcome(*cfg, group_id.0@, members, snaps@, i + 1).1);
                    assert(cur =~= keys + member_outcome(*cfg, group_id.0@, members, snaps@, i + 1).0);
                } else {
                    assert(rejected@.map_values(rejected_view_of()) =~= old_rej + member_outcome(*cfg, group_id.0@, members, snaps@, i + 1).1);
                    assert(cur =~= keys + member_outcome(*cfg, group_id.0@, members, snaps@, i + 1).0);
                }
            }
        }
        i = i + 1;
    }
    Ghost(cur)
}

/// What `generate_candidates` gives for `request` under `cfg` and the
/// runtime snapshots `snaps`: an error for an unknown domain or an empty
/// roster, else the candidates and rejections of the domain's roster.
pub open spec fn candidates_result(cfg: AnemoiConfig, request: InferenceRequest, snaps: Seq<RuntimeSnapshot>, r: Result<CandidateSet, PolicyError>) -> bool {
    &&& !cfg.has_domain(request.domain.0@) ==> r == Err::<CandidateSet, PolicyError>(PolicyError::UnknownDomain(request.domain))
    &&& cfg.has_domain(request.domain.0@) && cfg.domain(request.domain.0@).rosters@.len() == 0
        ==> r == Err::<CandidateSet, PolicyError>(PolicyError::EmptyRoster(request.domain))
    &&& cfg.has_domain(request.domain.0@) && cfg.domain(request.domain.0@).rosters@.len() > 0 ==> (r matches Ok(set) && ({
        let roster = cfg.domain(request.domain.0@).rosters@;
        outcome_holds(set.candidates@, set.rejected_options@, roster_outcome(cfg, roster, snaps, roster.len() as int), cfg, snaps)
    }))
}

/// Two candidates agree on every field, texts compared by content.
pub open spec fn alike(a: Candidate, b: Candidate) -> bool {
    &&& a.action == b.action
    &&& a.model_id.0@ == b.model_id.0@
    &&& a.runtime_id.0@ == b.runtime_id.0@
    &&& a.group_id.0@ == b.group_id.0@
    &&& a.model_profile.id.0@ == b.model_profile.id.0@
    &&& a.model_profile.family == b.model_profile.family
    &&& a.model_profile.parameter_class == b.model_profile.parameter_class
    &&& a.model_profile.context_window == b.model_profile.context_window
    &&& a.model_profile.vram_required_mb == b.model_profile.vram_required_mb
    &&& a.model_profile.ram_required_mb == b.model_profile.ram_required_mb
    &&& a.model_profile.cold_load_estimate_ms == b.model_profile.cold_load_estimate_ms
    &&& a.model_profile.supported_runtimes@ == b.model_profile.supported_runtimes@
    &&& a.model_profile.supports_streaming == b.model_profile.supports_streaming
    &&& a.residency_state == b.residency_state
    &&& a.load_estimate_ms == b.load_estimate_ms
    &&& a.runtime_memory == b.runtime_memory
    &&& a.group_keep_hot == b.group_keep_hot
}

/// Two candidate results agree: the same error, or candidate sets that
/// agree entry by entry, rejections compared by content.
pub open spec fn results_alike(r1: Result<CandidateSet, PolicyError>, r2: Result<CandidateSet, PolicyError>) -> bool {
    match (r1, r2) {
        (Err(e1), Err(e2)) => e1 == e2,
        (Ok(a), Ok(b)) => {
            &&& a.candidates@.len() == b.candidates@.len()
            &&& forall|i: int| 0 <= i < a.candidates@.len() ==> alike(#[trigger] a.candidates@[i], b.candidates@[i])
            &&& a.rejected_options@.map_values(rejected_view_of()) == b.rejected_options@.map_values(rejected_view_of())
        },
        _ => false,
    }
}

/// Candidate generation is a function of the configuration, the request and
/// the snapshots alone: two schedulers with the same configuration, asked
/// the same, give results that agree.
pub proof fn lemma_candidates_determined(cfg: AnemoiConfig, request: InferenceRequest, snaps: Seq<RuntimeSnapshot>, r1: Result<CandidateSet, PolicyError>, r2: Result<CandidateSet, PolicyError>)
    requires
        candidates_result(cfg, request, snaps, r1),
        candidates_result(cfg, request, snaps, r2),
    ensures
        results_alike(r1, r2),
{
    if cfg.has_domain(request.domain.0@) && cfg.domain(request.domain.0@).rosters@.len() > 0 {
        let roster = cfg.domain(request.domain.0@).rosters@;
        let o = roster_outcome(cfg, roster, snaps, roster.len() as int);
        let a = r1->Ok_0;
        let b = r2->Ok_0;
        assert forall|i: int| 0 <= i < a.candidates@.len() implies alike(#[trigger] a.candidates@[i], b.candidates@[i]) by {
            assert(candidate_ok(a.candidates@[i], o.0[i], cfg, snaps));
            assert(candidate_ok(b.candidates@[i], o.0[i], cfg, snaps));
        }
    }
}

impl Scheduler {
    /// The candidates for `request` given runtime `snapshots`: for each group
    /// of the domain's roster (in roster order), each member model, each of
    /// its supported runtimes with an available snapshot. A member without a
    /// profile, or with no available runtime, becomes a rejected option.
    pub fn generate_candidates(&self, request: &InferenceRequest, snapshots: &Vec<RuntimeSnapshot>) -> (r: Result<CandidateSet, PolicyError>)
        ensures
            candidates_result(self.config, *request, snapshots@, r),
    {
        let cfg = &self.config;
        let domain = match cfg.find_domain(request.domain.0.as_str()) {
            Some(d) => d,
            None => return Err(PolicyError::UnknownDomain(request.domain.clone())),
        };
        if domain.rosters.len() == 0 {
            return Err(PolicyError::EmptyRoster(request.domain.clone()));
        }
        let ghost roster = domain.rosters@;
        let mut cands: Vec<Candidate> = Vec::new();
        let mut rejected: Vec<RejectedOption> = Vec::new();
        let ghost mut keys: Seq<CandidateKey> = Seq::empty();
        let mut i: usize = 0;
        while i < domain.rosters.len()
            invariant
                roster == domain.rosters@,
                i <= roster.len(),
                keys == roster_outcome(*cfg, roster, snapshots@, i as int).0,
                rejected@.map_values(rejected_view_of()) == roster_outcome(*cfg, roster, snapshots@, i as int).1,
                cands@.len() == keys.len(),
                forall|j: int| 0 <= j < keys.len() ==> candidate_ok(#[trigger] cands@[j], keys[j], *cfg, snapshots@),
            decreases roster.len() - i,
        {
            let gid = &domain.rosters[i];
            if cfg.find_group(gid.0.as_str()).is_some() {
                let nk = add_group(cfg, gid, snapshots, &mut cands, &mut rejected, Ghost(keys));
                proof {
                    keys = nk@;
                }
            }
            i = i + 1;
        }
        Ok(CandidateSet { candidates: cands, rejected_options: rejected })
    }
}

pub open spec fn is_ascii_digit(c: char) -> bool {
    48 <= (c as int) <= 57
}

/// The number spelled by the ASCII digits among the first `n` characters of
/// `s`, ignoring every other character.
pub open spec fn digits_value(s: Seq<char>, n: int) -> nat
    decreases n,
{
    if n <= 0 {
        0
    } else if is_ascii_digit(s[n - 1]) {
        digits_value(s, n - 1) * 10 + ((s[n - 1] as int) - 48) as nat
    } else {
        digits_value(s, n - 1)
    }
}

pub open spec fn has_ascii_digit(s: Seq<char>) -> bool {
    exists|i: int| 0 <= i < s.len() && is_ascii_digit(#[trigger] s[i])
}

/// The quality score of a parameter class such as `9b` or `35b`: the number
/// its digits spell, clamped to `1..=100`; `1` when it has no digits or the
/// number does not fit an `i32`.
pub open spec fn quality_of(parameter_class: Seq<char>) -> i32 {
    let v = digits_value(parameter_class, parameter_class.len() as int);
    if !has_ascii_digit(parameter_class) || v > i32::MAX {
        1
    } else if v < 1 {
        1
    } else if v > 100 {
        100
    } else {
        v as i32
    }
}

proof fn lemma_digits_value_monotone(s: Seq<char>, i: int, j: int)
    requires
        0 <= i <= j <= s.len(),
    ensures
        digits_value(s, i) <= digits_value(s, j),
    decreases j - i,
{
    if i < j {
        lemma_digits_value_monotone(s, i, j - 1);
    }
}

/// The quality score of a model profile.
pub fn quality_score(model: &ModelProfile) -> (r: i32)
    ensures
        r == quality_of(model.parameter_class@),
        1 <= r <= 100,
{
    let chars = chars_of(model.parameter_class.as_str());
    let ghost s = chars@;
    let mut v: u64 = 0;
    let mut big = false;
    let mut any = false;
    let mut i: usize = 0;
    while i < chars.len()
        invariant
            s == chars@,
            i <= s.len(),
            !big ==> v == digits_value(s, i as int) && v <= i32::MAX,
            big ==> digits_value(s, i as int) > i32::MAX,
            any == exists|k: int| 0 <= k < i && is_ascii_digit(#[trigger] s[k]),
        decreases s.len() - i,
    {
        let ch = chars[i];
        if '0' <= ch && ch <= '9' {
            any = true;
            let d = (ch as u32 - 48) as u64;
            if !big {
                let nv = v * 10 + d;
                if nv > 2147483647 {
                    big = true;
                } else {
                    v = nv;
                }
            }
            proof {
                if big {
                    lemma_digits_value_monotone(s, i as int, i + 1);
                }
            }
        }
        i = i + 1;
    }
    if !any || big {
        1
    } else if v < 1 {
        1
    } else if v > 100 {
        100
    } else {
        v as i32
    }
}

/// The terms of a candidate's score, in order: `(label, value, detail)`.
/// The load penalties negate the quotient cast to `i32` (the cast keeps the
/// low 32 bits of the quotient).
pub open spec fn score_terms(request: InferenceRequest, c: Candidate, keep_small_worker_hot: bool) -> Seq<(Seq<char>, int, Seq<char>)> {
    let id = c.model_profile.id.0@;
    let load = c.load_estimate_ms;
    let base = seq![
        ("quality"@, quality_of(c.model_profile.parameter_class@) as int, id + " satisfies the configured roster quality target"@),
        ("residency"@, c.residency_state.spec_reuse_bonus() as int, id + " is currently "@ + residency_state_debug(c.residency_state)),
        ("load_penalty"@, -(((load / 1000) as i32) as int), "estimated load cost is "@ + decimal(load as nat) + "ms"@),
    ];
    let with_budget = match request.latency_budget_ms {
        Some(b) => base.push(("latency_budget"@, if load > b { -((((load - b) / 500) as i32) as int) } else { 10int }, "latency budget is "@ + decimal(b as nat) + "ms"@)),
        None => base,
    };
    let pressure = match c.runtime_memory.spec_pressure_percent() {
        Some(p) => if p > 85 { -25int } else { 0int },
        None => 0int,
    };
    let with_pressure = with_budget.push(("memory_pressure"@, pressure, "runtime memory pressure was considered"@));
    if c.group_keep_hot || keep_small_worker_hot {
        with_pressure.push(("continuity"@, 20int, id + " belongs to a continuity-friendly residency group"@))
    } else {
        with_pressure
    }
}

pub open spec fn terms_total(t: Seq<(Seq<char>, int, Seq<char>)>, n: int) -> int
    decreases n,
{
    if n <= 0 {
        0
    } else {
        terms_total(t, n - 1) + t[n - 1].1
    }
}

/// Every running total of the terms `t` fits an `i32`.
pub open spec fn totals_fit(t: Seq<(Seq<char>, int, Seq<char>)>) -> bool {
    forall|n: int| 0 < n <= t.len() ==> i32::MIN <= #[trigger] terms_total(t, n) <= i32::MAX
}

/// Scoring `c` stays within the integers it computes with: its memory
/// figures give a percentage, its load penalties can be negated, and every
/// running total of its score fits an `i32`. Otherwise the arithmetic
/// overflows or divides by zero.
pub open spec fn score_fits(request: InferenceRequest, c: Candidate, keep_small_worker_hot: bool) -> bool {
    let load = c.load_estimate_ms;
    &&& c.runtime_memory.pressure_computable()
    &&& (load / 1000) as i32 != i32::MIN
    &&& (match request.latency_budget_ms {
        Some(b) => load > b ==> ((load - b) / 500) as i32 != i32::MIN,
        None => true,
    })
    &&& totals_fit(score_terms(request, c, keep_small_worker_hot))
}

/// A candidate with its score and the reasons behind it.
#[derive(Debug)]
pub struct ScoredCandidate {
    pub action: DecisionAction,
    pub candidate: Candidate,
    pub background_model: Option<ModelId>,
    pub score: DecisionScore,
    pub reasons: Vec<DecisionReason>,
}

/// The score and reasons of `s` list exactly the terms `t`, and the total is
/// their sum.
pub open spec fn scored_as(score: DecisionScore, reasons: Seq<DecisionReason>, t: Seq<(Seq<char>, int, Seq<char>)>) -> bool {
    &&& score.contributions@.len() == t.len()
    &&& reasons.len() == t.len()
    &&& forall|i: int| 0 <= i < t.len() ==> (#[trigger] score.contributions@[i]).label@ == t[i].0 && score.contributions@[i].value as int == t[i].1
    &&& forall|i: int| 0 <= i < t.len() ==> (#[trigger] reasons[i]).code@ == t[i].0 && reasons[i].detail@ == t[i].2 && reasons[i].impact as int == t[i].1
    &&& score.total as int == terms_total(t, t.len() as int)
}

/// Appends a term when the running total stays within `i32`; reports
/// whether it did.
fn try_push_term(score: &mut DecisionScore, reasons: &mut Vec<DecisionReason>, label: &str, value: i32, detail: String, Ghost(t): Ghost<Seq<(Seq<char>, int, Seq<char>)>>) -> (ok: bool)
    requires
        scored_as(*old(score), old(reasons)@, t),
    ensures
        ok == (i32::MIN <= old(score).total + value <= i32::MAX),
        ok ==> scored_as(*final(score), final(reasons)@, t.push((label@, value as int, detail@))),
        ok ==> final(score).total == old(score).total + value,
{
    let sum: i64 = score.total as i64 + value as i64;
    if sum < -2147483648i64 || sum > 2147483647i64 {
        return false;
    }
    score.total = sum as i32;
    score.contributions.push(ScoreContribution { label: owned(label), value });
    reasons.push(DecisionReason { code: owned(label), detail, impact: value });
    let ghost nt = t.push((label@, value as int, detail@));
    proof {
        lemma_terms_total_prefix(t, nt, t.len() as int);
    }
    assert(terms_total(nt, nt.len() as int) == terms_total(t, t.len() as int) + value);
    true
}

proof fn lemma_terms_total_prefix(t: Seq<(Seq<char>, int, Seq<char>)>, u: Seq<(Seq<char>, int, Seq<char>)>, n: int)
    requires
        0 <= n <= t.len(),
        n <= u.len(),
        forall|i: int| 0 <= i < n ==> t[i] == u[i],
    ensures
        terms_total(t, n) == terms_total(u, n),
    decreases n,
{
    if n > 0 {
        lemma_terms_total_prefix(t, u, n - 1);
    }
}

/// The next term of `full` after its prefix `t` is `x`: the running total
/// of `full` there is that of `t` plus `x`.
proof fn lemma_next_term(t: Seq<(Seq<char>, int, Seq<char>)>, full: Seq<(Seq<char>, int, Seq<char>)>, x: (Seq<char>, int, Seq<char>))
    requires
        t.len() < full.len(),
        forall|i: int| 0 <= i < t.len() ==> t[i] == full[i],
        full[t.len() as int] == x,
    ensures
        terms_total(full, t.len() + 1int) == terms_total(t, t.len() as int) + x.1,
        forall|i: int| 0 <= i < t.len() + 1 ==> t.push(x)[i] == full[i],
{
    lemma_terms_total_prefix(t, full, t.len() as int);
}

/// Adding a term whose running total fits keeps every running total fitting.
proof fn lemma_totals_fit_push(t: Seq<(Seq<char>, int, Seq<char>)>, x: (Seq<char>, int, Seq<char>))
    requires
        totals_fit(t),
        i32::MIN <= terms_total(t, t.len() as int) + x.1 <= i32::MAX,
    ensures
        totals_fit(t.push(x)),
{
    let u = t.push(x);
    assert forall|n: int| 0 < n <= u.len() implies i32::MIN <= #[trigger] terms_total(u, n) <= i32::MAX by {
        if n <= t.len() {
            lemma_terms_total_prefix(t, u, n);
        } else {
            lemma_terms_total_prefix(t, u, t.len() as int);
        }
    }
}

fn with_suffix(a: &str, b: &str) -> (r: String)
    ensures
        r@ == a@ + b@,
{
    let mut s = owned(a);
    push_str(&mut s, b);
    s
}

fn number_text(prefix: &str, n: u64, suffix: &str) -> (r: String)
    ensures
        r@ == prefix@ + decimal(n as nat) + suffix@,
{
    let mut s = owned(prefix);
    push_decimal(&mut s, n);
    push_str(&mut s, suffix);
    s
}

/// What scoring `candidate` gives: its action, a copy of it, no background
/// model, and the score and reasons of its terms.
pub open spec fn scored_ok(s: ScoredCandidate, request: InferenceRequest, c: Candidate, keep_small_worker_hot: bool) -> bool {
    &&& s.action == c.action
    &&& s.candidate.same(c)
    &&& s.background_model is None
    &&& scored_as(s.score, s.reasons@, score_terms(request, c, keep_small_worker_hot))
}

/// Scores a candidate, or `None` when the arithmetic would overflow or
/// divide by zero (see `score_fits`).
fn score_checked(request: &InferenceRequest, candidate: &Candidate, config: &AnemoiConfig) -> (r: Option<ScoredCandidate>)
    ensures
        r is None <==> !score_fits(*request, *candidate, config.continuity.keep_small_worker_hot),
        r matches Some(s) ==> scored_ok(s, *request, *candidate, config.continuity.keep_small_worker_hot),
{
    let ghost ksh = config.continuity.keep_small_worker_hot;
    let ghost full = score_terms(*request, *candidate, ksh);
    let model = &candidate.model_profile;
    let state = candidate.residency_state;
    let id = model.id.0.as_str();
    let load = candidate.load_estimate_ms;
    match (candidate.runtime_memory.vram_used_mb, candidate.runtime_memory.vram_total_mb) {
        (Some(used), Some(total)) => {
            if total == 0 || used > 184467440737095516 {
                return None;
            }
        },
        _ => {},
    }
    let quotient = (load / 1000) as i32;
    if quotient == -2147483648i32 {
        return None;
    }
    let latency: Option<(u64, i32)> = match request.latency_budget_ms {
        Some(budget) => {
            if load > budget {
                let q = ((load - budget) / 500) as i32;
                if q == -2147483648i32 {
                    return None;
                }
                Some((budget, -q))
            } else {
                Some((budget, 10))
            }
        },
        None => None,
    };
    let mut score = DecisionScore::empty();
    let mut reasons: Vec<DecisionReason> = Vec::new();
    let ghost mut t: Seq<(Seq<char>, int, Seq<char>)> = Seq::empty();

    let q = quality_score(model);
    let det = with_suffix(id, " satisfies the configured roster quality target");
    let ghost x = ("quality"@, q as int, det@);
    proof { lemma_next_term(t, full, x); }
    if !try_push_term(&mut score, &mut reasons, "quality", q, det, Ghost(t)) {
        return None;
    }
    proof { lemma_totals_fit_push(t, x); t = t.push(x); }

    let mut det = with_suffix(id, " is currently ");
    push_str(&mut det, residency_state_debug_name(state));
    let bonus = state.reuse_bonus();
    let ghost x = ("residency"@, bonus as int, det@);
    proof { lemma_next_term(t, full, x); }
    if !try_push_term(&mut score, &mut reasons, "residency", bonus, det, Ghost(t)) {
        return None;
    }
    proof { lemma_totals_fit_push(t, x); t = t.push(x); }

    let penalty: i32 = -quotient;
    let det = number_text("estimated load cost is ", load, "ms");
    let ghost x = ("load_penalty"@, penalty as int, det@);
    proof { lemma_next_term(t, full, x); }
    if !try_push_term(&mut score, &mut reasons, "load_penalty", penalty, det, Ghost(t)) {
        return None;
    }
    proof { lemma_totals_fit_push(t, x); t = t.push(x); }

    if let Some((budget, p)) = latency {
        let det = number_text("latency budget is ", budget, "ms");
        let ghost x = ("latency_budget"@, p as int, det@);
        proof { lemma_next_term(t, full, x); }
        if !try_push_term(&mut score, &mut reasons, "latency_budget", p, det, Ghost(t)) {
            return None;
        }
        proof { lemma_totals_fit_push(t, x); t = t.push(x); }
    }

    let pressure: i32 = match candidate.runtime_memory.pressure_percent() {
        Some(p) => if p > 85 { -25 } else { 0 },
        None => 0,
    };
    let det = owned("runtime memory pressure was considered");
    let ghost x = ("memory_pressure"@, pressure as int, det@);
    proof { lemma_next_term(t, full, x); }
    if !try_push_term(&mut score, &mut reasons, "memory_pressure", pressure, det, Ghost(t)) {
        return None;
    }
    proof { lemma_totals_fit_push(t, x); t = t.push(x); }

    if candidate.group_keep_hot || config.continuity.keep_small_worker_hot {
        let det = with_suffix(id, " belongs to a continuity-friendly residency group");
        let ghost x = ("continuity"@, 20int, det@);
        proof { lemma_next_term(t, full, x); }
        if !try_push_term(&mut score, &mut reasons, "continuity", 20, det, Ghost(t)) {
            return None;
        }
        proof { lemma_totals_fit_push(t, x); t = t.push(x); }
    }
    assert(t =~= full);
    Some(ScoredCandidate { action: candidate.action, candidate: candidate.clone(), background_model: None, score, reasons })
}

/// Scores a candidate: quality, residency reuse, load penalty, latency
/// budget, memory pressure and continuity, each recorded as a contribution
/// and a reason.
pub fn score_candidate(request: &InferenceRequest, candidate: &Candidate, config: &AnemoiConfig) -> (r: ScoredCandidate)
    requires
        score_fits(*request, *candidate, config.continuity.keep_small_worker_hot),
    ensures
        scored_ok(r, *request, *candidate, config.continuity.keep_small_worker_hot),
{
    score_checked(request, candidate, config).unwrap()
}
/// The total score of a candidate.
pub open spec fn cand_total(request: InferenceRequest, c: Candidate, ksh: bool) -> int {
    let t = score_terms(request, c, ksh);
    terms_total(t, t.len() as int)
}

pub open spec fn is_hot_or_warm(c: Candidate) -> bool {
    c.action == DecisionAction::ReuseHot || c.action == DecisionAction::PromoteWarm
}

/// A cold load that would keep the caller waiting longer than the blank-wait
/// limit.
pub open spec fn is_cold_large(c: Candidate, max_blank_wait_ms: u64) -> bool {
    c.action == DecisionAction::ColdLoad && c.load_estimate_ms > max_blank_wait_ms
}

/// Cold candidates are ranked by quality, then by model id.
pub open spec fn cold_rank_le(a: Candidate, b: Candidate) -> bool {
    let qa = quality_of(a.model_profile.parameter_class@);
    let qb = quality_of(b.model_profile.parameter_class@);
    qa < qb || (qa == qb && text_le(a.model_id.0@, b.model_id.0@))
}

/// `i` is the first of the highest-scoring candidates among those that are
/// hot or warm (`hot_only`) or among all.
pub open spec fn is_first_best(request: InferenceRequest, cands: Seq<Candidate>, ksh: bool, hot_only: bool, i: int) -> bool {
    &&& 0 <= i < cands.len()
    &&& (hot_only ==> is_hot_or_warm(cands[i]))
    &&& forall|j: int| 0 <= j < cands.len() && (hot_only ==> is_hot_or_warm(#[trigger] cands[j])) ==> cand_total(request, cands[j], ksh) <= cand_total(request, cands[i], ksh)
    &&& forall|j: int| 0 <= j < i && (hot_only ==> is_hot_or_warm(#[trigger] cands[j])) ==> cand_total(request, cands[j], ksh) < cand_total(request, cands[i], ksh)
}

/// `i` is a top-ranked large cold candidate.
pub open spec fn is_top_cold(cands: Seq<Candidate>, mbw: u64, i: int) -> bool {
    &&& 0 <= i < cands.len()
    &&& is_cold_large(cands[i], mbw)
    &&& forall|j: int| 0 <= j < cands.len() && is_cold_large(#[trigger] cands[j], mbw) ==> cold_rank_le(cands[j], cands[i])
}

pub open spec fn any_hot(cands: Seq<Candidate>) -> bool {
    exists|i: int| 0 <= i < cands.len() && is_hot_or_warm(#[trigger] cands[i])
}

pub open spec fn any_cold_large(cands: Seq<Candidate>, mbw: u64) -> bool {
    exists|i: int| 0 <= i < cands.len() && is_cold_large(#[trigger] cands[i], mbw)
}

pub open spec fn best_index(request: InferenceRequest, cands: Seq<Candidate>, ksh: bool, hot_only: bool) -> int {
    choose|i: int| is_first_best(request, cands, ksh, hot_only, i)
}

pub open spec fn cold_index(cands: Seq<Candidate>, mbw: u64) -> int {
    choose|i: int| is_top_cold(cands, mbw, i)
}

/// A candidate's total score.
pub open spec fn score_key(request: InferenceRequest, ksh: bool) -> spec_fn(Candidate) -> int {
    |c: Candidate| cand_total(request, c, ksh)
}

/// The candidates a choice is made among: the hot or warm ones
/// (`hot_only`), or all.
pub open spec fn eligible(hot_only: bool) -> spec_fn(Candidate) -> bool {
    |c: Candidate| !hot_only || is_hot_or_warm(c)
}

/// The candidate a decision serves is the one met first in the candidates
/// stably sorted by descending total score: the first of all of them, or,
/// when a cold model is staged, the first that is hot or warm.
pub proof fn lemma_choice_leads_ranking(request: InferenceRequest, cands: Seq<Candidate>, ksh: bool, hot_only: bool, i: int)
    requires
        is_first_best(request, cands, ksh, hot_only, i),
    ensures
        exists|k: int| #[trigger] is_first_with(insertion_sort(cands, by_key_desc(score_key(request, ksh))), eligible(hot_only), k)
            && insertion_sort(cands, by_key_desc(score_key(request, ksh)))[k] == cands[i],
{
    let key = score_key(request, ksh);
    let p = eligible(hot_only);
    assert(is_first_max(cands, key, p, i)) by {
        assert forall|j: int| 0 <= j < cands.len() && p(#[trigger] cands[j]) implies key(cands[j]) <= key(cands[i]) by {
            assert(hot_only ==> is_hot_or_warm(cands[j]));
        }
        assert forall|j: int| 0 <= j < i && p(#[trigger] cands[j]) implies key(cands[j]) < key(cands[i]) by {
            assert(hot_only ==> is_hot_or_warm(cands[j]));
        }
    }
    lemma_first_max_leads_sort(cands, key, p, i);
}

/// Whether the scheduler serves from the best hot or warm candidate now and
/// stages the top large cold candidate in the background: both exist, the
/// continuity policy allows background loads and prefers a degraded answer
/// over silence, and the cold load would exceed the latency budget (no budget
/// counts as unbounded).
pub open spec fn stages_background(request: InferenceRequest, cands: Seq<Candidate>, cfg: AnemoiConfig) -> bool {
    let mbw = cfg.continuity.max_blank_wait_ms;
    &&& any_hot(cands)
    &&& any_cold_large(cands, mbw)
    &&& cfg.continuity.background_load
    &&& cfg.continuity.prefer_degraded_response_over_silence
    &&& (match request.latency_budget_ms {
        Some(b) => b,
        None => u64::MAX,
    }) < cands[cold_index(cands, mbw)].load_estimate_ms
}

pub open spec fn staging_detail(hot: Seq<char>, cold: Seq<char>, cold_ms: u64, budget: u64) -> Seq<char> {
    "selected hot "@ + hot + " now and staged "@ + cold + " because cold load estimate "@ + decimal(cold_ms as nat)
        + "ms exceeded latency budget "@ + decimal(budget as nat)
        + "ms and continuity policy prefers degraded response over silence"@
}

/// The decision for `request` given its candidates `cands` and rejected
/// options `rejected` (everything but the id and the creation time).
pub open spec fn decision_matches(d: Decision, request: InferenceRequest, cands: Seq<Candidate>, rejected: Seq<RejectedOption>, cfg: AnemoiConfig) -> bool {
    let ksh = cfg.continuity.keep_small_worker_hot;
    let mbw = cfg.continuity.max_blank_wait_ms;
    &&& d.request_id == request.id
    &&& d.explanation.rejected_options@ == rejected
    &&& if cands.len() == 0 {
        &&& d.action == DecisionAction::Deny
        &&& d.selected_model is None
        &&& d.selected_runtime is None
        &&& d.selected_group is None
        &&& d.background_model is None
        &&& d.score.total == 0
        &&& d.score.contributions@.len() == 0
        &&& d.explanation.summary@ == "No runnable model candidate was available."@
        &&& d.explanation.reasons@.len() == 1
        &&& d.explanation.reasons@[0].code@ == "no_candidate"@
        &&& d.explanation.reasons@[0].detail@ == "all configured model/runtime options were rejected"@
        &&& d.explanation.reasons@[0].impact == -100
    } else if stages_background(request, cands, cfg) {
        let hot = cands[best_index(request, cands, ksh, true)];
        let cold = cands[cold_index(cands, mbw)];
        let budget = match request.latency_budget_ms {
            Some(b) => b,
            None => u64::MAX,
        };
        let terms = score_terms(request, hot, ksh);
        let detail = staging_detail(hot.model_id.0@, cold.model_id.0@, cold.load_estimate_ms, budget);
        &&& d.action == DecisionAction::StageBackground
        &&& d.selected_model == Some(hot.model_id)
        &&& d.selected_runtime == Some(hot.runtime_id)
        &&& d.selected_group == Some(hot.group_id)
        &&& d.background_model matches Some(m) && m.0@ == cold.model_id.0@
        &&& d.score.contributions@.len() == terms.len() + 1
        &&& d.explanation.reasons@.len() == terms.len() + 1
        &&& forall|i: int| 0 <= i < terms.len() ==> (#[trigger] d.score.contributions@[i]).label@ == terms[i].0 && d.score.contributions@[i].value as int == terms[i].1
        &&& forall|i: int| 0 <= i < terms.len() ==> (#[trigger] d.explanation.reasons@[i]).code@ == terms[i].0 && d.explanation.reasons@[i].detail@ == terms[i].2 && d.explanation.reasons@[i].impact as int == terms[i].1
        &&& d.score.contributions@[terms.len() as int].label@ == "continuity background staging"@
        &&& d.score.contributions@[terms.len() as int].value == 50
        &&& d.explanation.reasons@[terms.len() as int].code@ == "continuity.stage_background"@
        &&& d.explanation.reasons@[terms.len() as int].detail@ == detail
        &&& d.explanation.reasons@[terms.len() as int].impact == 50
        &&& d.score.total as int == terms_total(terms, terms.len() as int) + 50
        &&& d.explanation.summary@ == "Selected "@ + hot.model_id.0@ + " via "@ + hot.runtime_id.0@ + " and staged "@ + cold.model_id.0@ + " to avoid an interactive cold-load wait."@
    } else {
        let best = cands[best_index(request, cands, ksh, false)];
        &&& d.action == best.action
        &&& d.selected_model == Some(best.model_id)
        &&& d.selected_runtime == Some(best.runtime_id)
        &&& d.selected_group == Some(best.group_id)
        &&& d.background_model is None
        &&& scored_as(d.score, d.explanation.reasons@, score_terms(request, best, ksh))
        &&& d.explanation.summary@ == "Selected "@ + best.model_id.0@ + " via "@ + best.runtime_id.0@ + " with action "@ + decision_action_debug(best.action) + "."@
    }
}

/// The decision when no candidate can run the request.
fn deny_decision(request: &InferenceRequest, rejected_options: Vec<RejectedOption>) -> (d: Decision)
    ensures
        d.request_id == request.id,
        d.explanation.rejected_options@ == rejected_options@,
        d.action == DecisionAction::Deny,
        d.selected_model is None,
        d.selected_runtime is None,
        d.selected_group is None,
        d.background_model is None,
        d.score.total == 0,
        d.score.contributions@.len() == 0,
        d.explanation.summary@ == "No runnable model candidate was available."@,
        d.explanation.reasons@.len() == 1,
        d.explanation.reasons@[0].code@ == "no_candidate"@,
        d.explanation.reasons@[0].detail@ == "all configured model/runtime options were rejected"@,
        d.explanation.reasons@[0].impact == -100,
{
    let mut reasons: Vec<DecisionReason> = Vec::new();
    reasons.push(DecisionReason {
        code: owned("no_candidate"),
        detail: owned("all configured model/runtime options were rejected"),
        impact: -100,
    });
    Decision {
        id: fresh_uuid(),
        request_id: request.id.clone(),
        action: DecisionAction::Deny,
        selected_model: None,
        selected_runtime: None,
        selected_group: None,
        background_model: None,
        score: DecisionScore::empty(),
        explanation: Explanation {
            summary: owned("No runnable model candidate was available."),
            reasons,
            rejected_options,
        },
        created_at: now_millis(),
    }
}

/// Every scored candidate is the scoring of the candidate at the same index.
pub open spec fn scored_list(scored: Seq<ScoredCandidate>, cands: Seq<Candidate>, request: InferenceRequest, ksh: bool) -> bool {
    &&& scored.len() == cands.len()
    &&& forall|i: int| 0 <= i < cands.len() ==> {
        &&& (#[trigger] scored[i]).action == cands[i].action
        &&& scored[i].candidate.same(cands[i])
        &&& scored[i].background_model is None
        &&& scored_as(scored[i].score, scored[i].reasons@, score_terms(request, cands[i], ksh))
    }
}

fn hot_or_warm(a: DecisionAction) -> (r: bool)
    ensures
        r == (a == DecisionAction::ReuseHot || a == DecisionAction::PromoteWarm),
{
    matches!(a, DecisionAction::ReuseHot | DecisionAction::PromoteWarm)
}

/// The first highest-scoring candidate, among the hot or warm ones when
/// `hot_only`.
fn find_best(scored: &Vec<ScoredCandidate>, Ghost(cands): Ghost<Seq<Candidate>>, Ghost(request): Ghost<InferenceRequest>, Ghost(ksh): Ghost<bool>, hot_only: bool) -> (r: Option<usize>)
    requires
        scored_list(scored@, cands, request, ksh),
    ensures
        r is Some == ((hot_only ==> any_hot(cands)) && (!hot_only ==> cands.len() > 0)),
        r matches Some(i) ==> is_first_best(request, cands, ksh, hot_only, i as int),
{
    let mut best: Option<usize> = None;
    let mut j: usize = 0;
    while j < scored.len()
        invariant
            scored_list(scored@, cands, request, ksh),
            j <= cands.len(),
            best is None ==> forall|k: int| 0 <= k < j ==> !(hot_only ==> is_hot_or_warm(#[trigger] cands[k])),
            best is None && !hot_only ==> j == 0,
            best matches Some(b) ==> ({
                &&& b < j
                &&& (hot_only ==> is_hot_or_warm(cands[b as int]))
                &&& forall|k: int| 0 <= k < j && (hot_only ==> is_hot_or_warm(#[trigger] cands[k])) ==> cand_total(request, cands[k], ksh) <= cand_total(request, cands[b as int], ksh)
                &&& forall|k: int| 0 <= k < b && (hot_only ==> is_hot_or_warm(#[trigger] cands[k])) ==> cand_total(request, cands[k], ksh) < cand_total(request, cands[b as int], ksh)
            }),
        decreases cands.len() - j,
    {
        let ghost cj = cands[j as int];
        assert(scored@[j as int].action == cj.action);
        if !hot_only || hot_or_warm(scored[j].action) {
            match best {
                None => {
                    best = Some(j);
                },
                Some(b) => {
                    assert(scored@[b as int].score.total as int == cand_total(request, cands[b as int], ksh));
                    assert(scored@[j as int].score.total as int == cand_total(request, cj, ksh));
                    if scored[j].score.total > scored[b].score.total {
                        best = Some(j);
                    }
                },
            }
        }
        j = j + 1;
    }
    proof {
        if best is Some {
            let b = best->0;
            if hot_only {
                assert(is_hot_or_warm(cands[b as int]));
            }
        }
        if hot_only && best is None {
            assert forall|k: int| 0 <= k < cands.len() implies !is_hot_or_warm(#[trigger] cands[k]) by {
            }
        }
    }
    best
}

fn cold_rank_le_exec(a: &Candidate, b: &Candidate) -> (r: bool)
    ensures
        r == cold_rank_le(*a, *b),
{
    let qa = quality_score(&a.model_profile);
    let qb = quality_score(&b.model_profile);
    qa < qb || (qa == qb && str_le(a.model_id.0.as_str(), b.model_id.0.as_str()))
}

proof fn lemma_cold_rank_total_preorder()
    ensures
        forall|a: Candidate, b: Candidate| #[trigger] cold_rank_le(a, b) || #[trigger] cold_rank_le(b, a),
        forall|a: Candidate, b: Candidate, c: Candidate| #[trigger] cold_rank_le(a, b) && #[trigger] cold_rank_le(b, c) ==> cold_rank_le(a, c),
{
    assert forall|a: Candidate, b: Candidate| #[trigger] cold_rank_le(a, b) || #[trigger] cold_rank_le(b, a) by {
        lemma_text_le_total(a.model_id.0@, b.model_id.0@);
    }
    assert forall|a: Candidate, b: Candidate, c: Candidate| #[trigger] cold_rank_le(a, b) && #[trigger] cold_rank_le(b, c) implies cold_rank_le(a, c) by {
        if quality_of(a.model_profile.parameter_class@) == quality_of(b.model_profile.parameter_class@)
            && quality_of(b.model_profile.parameter_class@) == quality_of(c.model_profile.parameter_class@) {
            lemma_text_le_transitive(a.model_id.0@, b.model_id.0@, c.model_id.0@);
        }
    }
}

/// A top-ranked large cold candidate (the last one in order among equals).
fn find_top_cold(scored: &Vec<ScoredCandidate>, Ghost(cands): Ghost<Seq<Candidate>>, Ghost(request): Ghost<InferenceRequest>, Ghost(ksh): Ghost<bool>, mbw: u64) -> (r: Option<usize>)
    requires
        scored_list(scored@, cands, request, ksh),
    ensures
        r is Some == any_cold_large(cands, mbw),
        r matches Some(i) ==> is_top_cold(cands, mbw, i as int),
{
    proof {
        lemma_cold_rank_total_preorder();
    }
    let mut top: Option<usize> = None;
    let mut j: usize = 0;
    while j < scored.len()
        invariant
            scored_list(scored@, cands, request, ksh),
            j <= cands.len(),
            forall|a: Candidate, b: Candidate| #[trigger] cold_rank_le(a, b) || #[trigger] cold_rank_le(b, a),
            forall|a: Candidate, b: Candidate, c: Candidate| #[trigger] cold_rank_le(a, b) && #[trigger] cold_rank_le(b, c) ==> cold_rank_le(a, c),
            top is None ==> forall|k: int| 0 <= k < j ==> !is_cold_large(#[trigger] cands[k], mbw),
            top matches Some(t) ==> ({
                &&& t < j
                &&& is_cold_large(cands[t as int], mbw)
                &&& forall|k: int| 0 <= k < j && is_cold_large(#[trigger] cands[k], mbw) ==> cold_rank_le(cands[k], cands[t as int])
            }),
        decreases cands.len() - j,
    {
        let c = &scored[j].candidate;
        assert(scored@[j as int].candidate.same(cands[j as int]));
        if c.action == DecisionAction::ColdLoad && c.load_estimate_ms > mbw {
            match top {
                None => {
                    top = Some(j);
                },
                Some(t) => {
                    assert(scored@[t as int].candidate.same(cands[t as int]));
                    assert(cold_rank_le(scored@[t as int].candidate, *c) == cold_rank_le(cands[t as int], cands[j as int]));
                    if cold_rank_le_exec(&scored[t].candidate, c) {
                        top = Some(j);
                    }
                },
            }
        }
        j = j + 1;
    }
    top
}

pub open spec fn summary_of(action: DecisionAction, model: Seq<char>, runtime: Seq<char>, background: Option<ModelId>) -> Seq<char> {
    match background {
        Some(bg) if action == DecisionAction::StageBackground => "Selected "@ + model + " via "@ + runtime + " and staged "@ + bg.0@ + " to avoid an interactive cold-load wait."@,
        _ => "Selected "@ + model + " via "@ + runtime + " with action "@ + decision_action_debug(action) + "."@,
    }
}

impl ScoredCandidate {
    /// The decision that selects this candidate.
    pub fn into_decision(self, request: &InferenceRequest, rejected_options: Vec<RejectedOption>) -> (d: Decision)
        ensures
            d.request_id == request.id,
            d.action == self.action,
            d.selected_model == Some(self.candidate.model_id),
            d.selected_runtime == Some(self.candidate.runtime_id),
            d.selected_group == Some(self.candidate.group_id),
            d.background_model == self.background_model,
            d.score.total == self.score.total,
            d.score.contributions@ == self.score.contributions@,
            d.explanation.reasons@ == self.reasons@,
            d.explanation.rejected_options@ == rejected_options@,
            d.explanation.summary@ == summary_of(self.action, self.candidate.model_id.0@, self.candidate.runtime_id.0@, self.background_model),
    {
        let mut summary = owned("Selected ");
        push_str(&mut summary, self.candidate.model_id.0.as_str());
        push_str(&mut summary, " via ");
        push_str(&mut summary, self.candidate.runtime_id.0.as_str());
        match (&self.action, &self.background_model) {
            (DecisionAction::StageBackground, Some(background)) => {
                push_str(&mut summary, " and staged ");
                push_str(&mut summary, background.0.as_str());
                push_str(&mut summary, " to avoid an interactive cold-load wait.");
            },
            _ => {
                push_str(&mut summary, " with action ");
                push_str(&mut summary, decision_action_debug_name(self.action));
                push_str(&mut summary, ".");
            },
        }
        Decision {
            id: fresh_uuid(),
            request_id: request.id.clone(),
            action: self.action,
            selected_model: Some(self.candidate.model_id),
            selected_runtime: Some(self.candidate.runtime_id),
            selected_group: Some(self.candidate.group_id),
            background_model: self.background_model,
            score: self.score,
            explanation: Explanation { summary, reasons: self.reasons, rejected_options },
            created_at: now_millis(),
        }
    }
}

proof fn lemma_first_best_unique(request: InferenceRequest, cands: Seq<Candidate>, ksh: bool, hot_only: bool, i: int)
    requires
        is_first_best(request, cands, ksh, hot_only, i),
    ensures
        best_index(request, cands, ksh, hot_only) == i,
{
    let c = best_index(request, cands, ksh, hot_only);
    assert(is_first_best(request, cands, ksh, hot_only, c));
    if c < i {
        assert(cand_total(request, cands[c], ksh) < cand_total(request, cands[i], ksh));
    } else if c > i {
        assert(cand_total(request, cands[i], ksh) < cand_total(request, cands[c], ksh));
    }
}

/// The top-ranked large cold candidates of a generated list all name the
/// same model with the same load estimate, so whichever of them is staged
/// (the last of the ranked list, or any other) the decision is the same.
pub proof fn lemma_top_cold_same(cands: Seq<Candidate>, keys: Seq<CandidateKey>, cfg: AnemoiConfig, snaps: Seq<RuntimeSnapshot>, mbw: u64, i: int)
    requires
        cands.len() == keys.len(),
        forall|k: int| 0 <= k < cands.len() ==> candidate_ok(#[trigger] cands[k], keys[k], cfg, snaps),
        is_top_cold(cands, mbw, i),
    ensures
        is_top_cold(cands, mbw, cold_index(cands, mbw)),
        cands[cold_index(cands, mbw)].model_id.0@ == cands[i].model_id.0@,
        cands[cold_index(cands, mbw)].load_estimate_ms == cands[i].load_estimate_ms,
{
    let c = cold_index(cands, mbw);
    assert(is_top_cold(cands, mbw, c));
    assert(cold_rank_le(cands[c], cands[i]));
    assert(cold_rank_le(cands[i], cands[c]));
    if cands[c].model_id.0@ != cands[i].model_id.0@ {
        lemma_text_le_antisymmetric(cands[c].model_id.0@, cands[i].model_id.0@);
    }
    assert(candidate_ok(cands[c], keys[c], cfg, snaps));
    assert(candidate_ok(cands[i], keys[i], cfg, snaps));
}

/// `i` is the first best of the first `n` candidates (among the hot or warm
/// ones when `hot_only`).
pub open spec fn first_best_upto(request: InferenceRequest, cands: Seq<Candidate>, ksh: bool, hot_only: bool, n: int, i: int) -> bool {
    &&& 0 <= i < n
    &&& (hot_only ==> is_hot_or_warm(cands[i]))
    &&& forall|j: int| 0 <= j < n && (hot_only ==> is_hot_or_warm(#[trigger] cands[j])) ==> cand_total(request, cands[j], ksh) <= cand_total(request, cands[i], ksh)
    &&& forall|j: int| 0 <= j < i && (hot_only ==> is_hot_or_warm(#[trigger] cands[j])) ==> cand_total(request, cands[j], ksh) < cand_total(request, cands[i], ksh)
}

/// Candidate `c` is eligible: hot or warm, when only those count.
pub open spec fn eligible_candidate(c: Candidate, hot_only: bool) -> bool {
    hot_only ==> is_hot_or_warm(c)
}

/// Some of the first `n` candidates is eligible.
pub open spec fn eligible_in(cands: Seq<Candidate>, hot_only: bool, n: int) -> bool {
    exists|j: int| 0 <= j < n && #[trigger] eligible_candidate(cands[j], hot_only)
}

proof fn lemma_first_best_upto(request: InferenceRequest, cands: Seq<Candidate>, ksh: bool, hot_only: bool, n: int) -> (i: int)
    requires
        0 <= n <= cands.len(),
        eligible_in(cands, hot_only, n),
    ensures
        first_best_upto(request, cands, ksh, hot_only, n, i),
    decreases n,
{
    if eligible_in(cands, hot_only, n - 1) {
        let i0 = lemma_first_best_upto(request, cands, ksh, hot_only, n - 1);
        if eligible_candidate(cands[n - 1], hot_only) && cand_total(request, cands[i0], ksh) < cand_total(request, cands[n - 1], ksh) {
            n - 1
        } else {
            i0
        }
    } else {
        let j = choose|j: int| 0 <= j < n && #[trigger] eligible_candidate(cands[j], hot_only);
        assert(j == n - 1);
        assert forall|k: int| 0 <= k < n && (hot_only ==> is_hot_or_warm(#[trigger] cands[k])) implies k == n - 1 by {
            assert(eligible_candidate(cands[k], hot_only));
        }
        n - 1
    }
}

/// Where some candidate is eligible (hot or warm, when `hot_only`), there
/// is a first best one, and `best_index` names it.
pub proof fn lemma_first_best_exists(request: InferenceRequest, cands: Seq<Candidate>, ksh: bool, hot_only: bool)
    requires
        eligible_in(cands, hot_only, cands.len() as int),
    ensures
        is_first_best(request, cands, ksh, hot_only, best_index(request, cands, ksh, hot_only)),
{
    let i = lemma_first_best_upto(request, cands, ksh, hot_only, cands.len() as int);
    assert(is_first_best(request, cands, ksh, hot_only, i));
    lemma_first_best_unique(request, cands, ksh, hot_only, i);
}

proof fn lemma_top_cold_upto(cands: Seq<Candidate>, mbw: u64, n: int) -> (i: int)
    requires
        0 <= n <= cands.len(),
        exists|j: int| 0 <= j < n && is_cold_large(#[trigger] cands[j], mbw),
    ensures
        0 <= i < n,
        is_cold_large(cands[i], mbw),
        forall|j: int| 0 <= j < n && is_cold_large(#[trigger] cands[j], mbw) ==> cold_rank_le(cands[j], cands[i]),
    decreases n,
{
    lemma_cold_rank_total_preorder();
    if exists|j: int| 0 <= j < n - 1 && is_cold_large(#[trigger] cands[j], mbw) {
        let i0 = lemma_top_cold_upto(cands, mbw, n - 1);
        if is_cold_large(cands[n - 1], mbw) && cold_rank_le(cands[i0], cands[n - 1]) {
            assert forall|j: int| 0 <= j < n && is_cold_large(#[trigger] cands[j], mbw) implies cold_rank_le(cands[j], cands[n - 1]) by {
                if j < n - 1 {
                    assert(cold_rank_le(cands[j], cands[i0]));
                } else {
                    assert(cold_rank_le(cands[j], cands[j]) || cold_rank_le(cands[j], cands[j]));
                }
            }
            n - 1
        } else {
            assert(cold_rank_le(cands[i0], cands[n - 1]) || cold_rank_le(cands[n - 1], cands[i0]));
            i0
        }
    } else {
        let j = choose|j: int| 0 <= j < n && is_cold_large(#[trigger] cands[j], mbw);
        assert(j == n - 1);
        assert(cold_rank_le(cands[j], cands[j]) || cold_rank_le(cands[j], cands[j]));
        n - 1
    }
}

/// Where some large cold candidate exists, `cold_index` names a top-ranked
/// one.
pub proof fn lemma_top_cold_exists(cands: Seq<Candidate>, mbw: u64)
    requires
        any_cold_large(cands, mbw),
    ensures
        is_top_cold(cands, mbw, cold_index(cands, mbw)),
{
    let i = lemma_top_cold_upto(cands, mbw, cands.len() as int);
    assert(is_top_cold(cands, mbw, i));
}

/// Background staging happens exactly when a hot or warm candidate and a
/// large cold one exist, the continuity policy allows background loads and
/// prefers a degraded answer over silence, and the top cold load would
/// overrun the latency budget (no budget counts as unbounded). The decision
/// then serves the first hot or warm candidate of the candidates stably
/// ranked by descending score and stages a top-ranked large cold one;
/// otherwise it stages nothing and serves the first candidate of that
/// ranking, or denies when there is none.
pub proof fn lemma_background_staging(
    d: Decision,
    request: InferenceRequest,
    cands: Seq<Candidate>,
    rejected: Seq<RejectedOption>,
    o: (Seq<CandidateKey>, Seq<RejectedView>),
    cfg: AnemoiConfig,
    snaps: Seq<RuntimeSnapshot>,
)
    requires
        outcome_holds(cands, rejected, o, cfg, snaps),
        decision_matches(d, request, cands, rejected, cfg),
    ensures
        (d.action == DecisionAction::StageBackground) <==> stages_background(request, cands, cfg),
        stages_background(request, cands, cfg) ==> ({
            let ksh = cfg.continuity.keep_small_worker_hot;
            let hot = best_index(request, cands, ksh, true);
            let cold = cold_index(cands, cfg.continuity.max_blank_wait_ms);
            let ranked = insertion_sort(cands, by_key_desc(score_key(request, ksh)));
            &&& is_first_best(request, cands, ksh, true, hot)
            &&& is_top_cold(cands, cfg.continuity.max_blank_wait_ms, cold)
            &&& (exists|k: int| #[trigger] is_first_with(ranked, eligible(true), k) && ranked[k] == cands[hot])
            &&& d.selected_model == Some(cands[hot].model_id)
            &&& d.background_model matches Some(m) && m.0@ == cands[cold].model_id.0@
        }),
        !stages_background(request, cands, cfg) ==> d.background_model is None,
        !stages_background(request, cands, cfg) && cands.len() > 0 ==> ({
            let ksh = cfg.continuity.keep_small_worker_hot;
            let best = best_index(request, cands, ksh, false);
            let ranked = insertion_sort(cands, by_key_desc(score_key(request, ksh)));
            &&& is_first_best(request, cands, ksh, false, best)
            &&& ranked.len() > 0 && ranked[0] == cands[best]
            &&& d.selected_model == Some(cands[best].model_id)
        }),
        cands.len() == 0 ==> d.action == DecisionAction::Deny,
{
    let ksh = cfg.continuity.keep_small_worker_hot;
    let mbw = cfg.continuity.max_blank_wait_ms;
    let ranked = insertion_sort(cands, by_key_desc(score_key(request, ksh)));
    if stages_background(request, cands, cfg) {
        let j = choose|i: int| 0 <= i < cands.len() && is_hot_or_warm(#[trigger] cands[i]);
        assert(eligible_candidate(cands[j], true));
        lemma_first_best_exists(request, cands, ksh, true);
        lemma_top_cold_exists(cands, mbw);
        lemma_choice_leads_ranking(request, cands, ksh, true, best_index(request, cands, ksh, true));
    } else if cands.len() > 0 {
        assert(eligible_candidate(cands[0], false));
        lemma_first_best_exists(request, cands, ksh, false);
        let best = best_index(request, cands, ksh, false);
        lemma_choice_leads_ranking(request, cands, ksh, false, best);
        let k = choose|k: int| #[trigger] is_first_with(ranked, eligible(false), k) && ranked[k] == cands[best];
        if k > 0 {
            assert((eligible(false))(ranked[0]));
        }
        let c = cands[best];
        assert(candidate_ok(c, o.0[best], cfg, snaps));
        assert(d.action == c.action);
    }
}

/// The action of a generated candidate follows its model's residency on the
/// runtime: reuse when hot on the GPU or serving, promotion when warm in CPU
/// memory, partly loaded or loading, a cold load when cold or failed, and
/// deferral while draining or evicting. A promotion is estimated at a third
/// of the model's cold-load time (3333 ms when unknown), a cold load at that
/// time (30 s when unknown), a reuse at nothing.
pub proof fn lemma_candidate_action_follows_residency(c: Candidate, k: CandidateKey, cfg: AnemoiConfig, snaps: Seq<RuntimeSnapshot>)
    requires
        candidate_ok(c, k, cfg, snaps),
    ensures
        (c.residency_state == ResidencyState::HotGpu || c.residency_state == ResidencyState::Serving)
            <==> c.action == DecisionAction::ReuseHot,
        (c.residency_state == ResidencyState::WarmCpu || c.residency_state == ResidencyState::Partial
            || c.residency_state == ResidencyState::Loading) <==> c.action == DecisionAction::PromoteWarm,
        (c.residency_state == ResidencyState::Cold || c.residency_state == ResidencyState::Failed)
            <==> c.action == DecisionAction::ColdLoad,
        (c.residency_state == ResidencyState::Draining || c.residency_state == ResidencyState::Evicting)
            <==> c.action == DecisionAction::Defer,
        c.action == DecisionAction::ReuseHot ==> c.load_estimate_ms == 0,
        c.action == DecisionAction::PromoteWarm ==> c.load_estimate_ms == match c.model_profile.cold_load_estimate_ms {
            Some(ms) => ms / 3,
            None => 3333,
        },
        c.action == DecisionAction::ColdLoad ==> c.load_estimate_ms == match c.model_profile.cold_load_estimate_ms {
            Some(ms) => ms,
            None => 30000,
        },
{
}

/// The VRAM pressure of a runtime, as a whole percentage (`used * 100 /
/// total`, rounded down), is above `limit`; `false` when a figure is
/// missing or the total is zero.
pub open spec fn vram_pressure_above(m: RuntimeMemorySnapshot, limit: int) -> bool {
    &&& m.vram_used_mb is Some
    &&& m.vram_total_mb is Some
    &&& m.vram_total_mb->0 > 0
    &&& (m.vram_used_mb->0 * 100) / (m.vram_total_mb->0 as int) > limit
}

/// Two term lists that differ only in the value of term `k` differ in
/// their total by that difference.
proof fn lemma_terms_total_differ(t1: Seq<(Seq<char>, int, Seq<char>)>, t2: Seq<(Seq<char>, int, Seq<char>)>, k: int, n: int)
    requires
        t1.len() == t2.len(),
        0 <= k < n <= t1.len(),
        forall|j: int| 0 <= j < t1.len() && j != k ==> #[trigger] t1[j].1 == t2[j].1,
    ensures
        terms_total(t1, n) - terms_total(t2, n) == t1[k].1 - t2[k].1,
    decreases n,
{
    if n - 1 > k {
        lemma_terms_total_differ(t1, t2, k, n - 1);
    } else {
        lemma_terms_total_same(t1, t2, k);
    }
}

proof fn lemma_terms_total_same(t1: Seq<(Seq<char>, int, Seq<char>)>, t2: Seq<(Seq<char>, int, Seq<char>)>, n: int)
    requires
        0 <= n <= t1.len(),
        t1.len() == t2.len(),
        forall|j: int| 0 <= j < n ==> #[trigger] t1[j].1 == t2[j].1,
    ensures
        terms_total(t1, n) == terms_total(t2, n),
    decreases n,
{
    if n > 0 {
        lemma_terms_total_same(t1, t2, n - 1);
    }
}

/// Memory pressure never raises a score. A candidate scores a
/// `memory_pressure` term of -25 on a runtime whose VRAM pressure is above
/// 85% and of 0 otherwise, so the same candidate on a runtime above 85%
/// scores exactly 25 less than on one at or below it.
pub proof fn lemma_memory_pressure_lowers_score(request: InferenceRequest, c1: Candidate, c2: Candidate, ksh: bool)
    requires
        c2 == (Candidate { runtime_memory: c2.runtime_memory, ..c1 }),
        c1.runtime_memory.pressure_computable(),
        c2.runtime_memory.pressure_computable(),
        vram_pressure_above(c1.runtime_memory, 85),
        !vram_pressure_above(c2.runtime_memory, 85),
    ensures
        ({
            let t = score_terms(request, c1, ksh);
            exists|k: int| 0 <= k < t.len() && t[k].0 == "memory_pressure"@ && #[trigger] t[k].1 == -25
        }),
        ({
            let t = score_terms(request, c2, ksh);
            exists|k: int| 0 <= k < t.len() && t[k].0 == "memory_pressure"@ && #[trigger] t[k].1 == 0
        }),
        cand_total(request, c1, ksh) == cand_total(request, c2, ksh) - 25,
{
    let m1 = c1.runtime_memory;
    let m2 = c2.runtime_memory;
    let u1 = m1.vram_used_mb->0;
    let v1 = m1.vram_total_mb->0;
    assert((u1 * 100) / (v1 as int) <= u1 * 100) by (nonlinear_arith)
        requires
            v1 >= 1,
            u1 >= 0,
    ;
    assert(m1.spec_pressure_percent() == Some(((u1 * 100) / (v1 as int)) as u64));
    assert(m1.spec_pressure_percent()->0 > 85);
    if m2.vram_used_mb is Some && m2.vram_total_mb is Some && m2.vram_total_mb->0 > 0 {
        let u2 = m2.vram_used_mb->0;
        let v2 = m2.vram_total_mb->0;
        assert((u2 * 100) / (v2 as int) <= u2 * 100) by (nonlinear_arith)
            requires
                v2 >= 1,
                u2 >= 0,
        ;
        assert(m2.spec_pressure_percent()->0 <= 85);
    }
    let t1 = score_terms(request, c1, ksh);
    let t2 = score_terms(request, c2, ksh);
    let k: int = if request.latency_budget_ms is Some { 4 } else { 3 };
    assert(t1[k].0 == "memory_pressure"@ && t1[k].1 == -25);
    assert(t2[k].0 == "memory_pressure"@ && t2[k].1 == 0);
    assert forall|j: int| 0 <= j < t1.len() && j != k implies #[trigger] t1[j].1 == t2[j].1 by {
    }
    lemma_terms_total_differ(t1, t2, k, t1.len() as int);
}

/// Scoring every candidate of `cands` stays within `i32` (see
/// `score_fits`), and so does the bonus for background staging when the
/// scheduler stages.
pub open spec fn cands_fit(request: InferenceRequest, cands: Seq<Candidate>, cfg: AnemoiConfig) -> bool {
    let ksh = cfg.continuity.keep_small_worker_hot;
    &&& forall|k: int| 0 <= k < cands.len() ==> score_fits(request, #[trigger] cands[k], ksh)
    &&& stages_background(request, cands, cfg) ==> cand_total(request, cands[best_index(request, cands, ksh, true)], ksh) + 50 <= i32::MAX
}

/// Deciding `request` on `snaps` stays within `i32`, whatever candidates the
/// configuration offers for it.
pub open spec fn decide_fits(cfg: AnemoiConfig, request: InferenceRequest, snaps: Seq<RuntimeSnapshot>) -> bool {
    let roster = cfg.domain(request.domain.0@).rosters@;
    cfg.has_domain(request.domain.0@) && roster.len() > 0 ==> forall|cands: Seq<Candidate>, rejected: Seq<RejectedOption>|
        #[trigger] outcome_holds(cands, rejected, roster_outcome(cfg, roster, snaps, roster.len() as int), cfg, snaps)
            ==> cands_fit(request, cands, cfg)
}

/// What deciding `request` on `snaps` gives: an unknown domain or an empty
/// roster is refused; otherwise the decision chosen among the candidates the
/// configuration offers (see `decision_matches`).
pub open spec fn decide_outcome(cfg: AnemoiConfig, request: InferenceRequest, snaps: Seq<RuntimeSnapshot>, r: Result<Decision, PolicyError>) -> bool {
    let roster = cfg.domain(request.domain.0@).rosters@;
    &&& !cfg.has_domain(request.domain.0@) ==> r == Err::<Decision, PolicyError>(PolicyError::UnknownDomain(request.domain))
    &&& cfg.has_domain(request.domain.0@) && roster.len() == 0 ==> r == Err::<Decision, PolicyError>(PolicyError::EmptyRoster(request.domain))
    &&& cfg.has_domain(request.domain.0@) && roster.len() > 0 ==> (r matches Ok(d) && exists|cands: Seq<Candidate>, rejected: Seq<RejectedOption>|
        #[trigger] outcome_holds(cands, rejected, roster_outcome(cfg, roster, snaps, roster.len() as int), cfg, snaps)
        && decision_matches(d, request, cands, rejected, cfg))
}

/// Two candidate lists read from the same keys agree on everything a
/// decision depends on.
proof fn lemma_same_keys(request: InferenceRequest, cands: Seq<Candidate>, cands2: Seq<Candidate>, keys: Seq<CandidateKey>, cfg: AnemoiConfig, snaps: Seq<RuntimeSnapshot>)
    requires
        cands.len() == keys.len(),
        cands2.len() == keys.len(),
        forall|k: int| 0 <= k < keys.len() ==> candidate_ok(#[trigger] cands[k], keys[k], cfg, snaps),
        forall|k: int| 0 <= k < keys.len() ==> candidate_ok(#[trigger] cands2[k], keys[k], cfg, snaps),
    ensures
        forall|k: int| 0 <= k < keys.len() ==> {
            &&& (#[trigger] cands2[k]).action == cands[k].action
            &&& cands2[k].load_estimate_ms == cands[k].load_estimate_ms
            &&& cands2[k].model_id.0@ == cands[k].model_id.0@
            &&& quality_of(cands2[k].model_profile.parameter_class@) == quality_of(cands[k].model_profile.parameter_class@)
            &&& score_terms(request, cands2[k], cfg.continuity.keep_small_worker_hot) == score_terms(request, cands[k], cfg.continuity.keep_small_worker_hot)
            &&& score_fits(request, cands2[k], cfg.continuity.keep_small_worker_hot) == score_fits(request, cands[k], cfg.continuity.keep_small_worker_hot)
        },
{
    let ksh = cfg.continuity.keep_small_worker_hot;
    assert forall|k: int| 0 <= k < keys.len() implies {
        &&& (#[trigger] cands2[k]).action == cands[k].action
        &&& cands2[k].load_estimate_ms == cands[k].load_estimate_ms
        &&& cands2[k].model_id.0@ == cands[k].model_id.0@
        &&& quality_of(cands2[k].model_profile.parameter_class@) == quality_of(cands[k].model_profile.parameter_class@)
        &&& score_terms(request, cands2[k], ksh) == score_terms(request, cands[k], ksh)
        &&& score_fits(request, cands2[k], ksh) == score_fits(request, cands[k], ksh)
    } by {
        assert(candidate_ok(cands[k], keys[k], cfg, snaps));
        assert(candidate_ok(cands2[k], keys[k], cfg, snaps));
        assert(cands2[k].model_profile.parameter_class@ == cands[k].model_profile.parameter_class@);
        assert(cands2[k].model_profile.id.0@ == cands[k].model_profile.id.0@);
        assert(score_terms(request, cands2[k], ksh) =~= score_terms(request, cands[k], ksh));
    }
}

/// When the candidates of one outcome fit, so do those of every list read
/// from the same keys; `h` and `c` are the first best hot or warm and a top
/// large cold candidate, where there are such.
proof fn lemma_fit_for_all(request: InferenceRequest, cands: Seq<Candidate>, rejected: Seq<RejectedOption>, o: (Seq<CandidateKey>, Seq<RejectedView>), cfg: AnemoiConfig, snaps: Seq<RuntimeSnapshot>, h: int, c: int)
    requires
        outcome_holds(cands, rejected, o, cfg, snaps),
        cands_fit(request, cands, cfg),
        any_hot(cands) ==> is_first_best(request, cands, cfg.continuity.keep_small_worker_hot, true, h),
        any_cold_large(cands, cfg.continuity.max_blank_wait_ms) ==> is_top_cold(cands, cfg.continuity.max_blank_wait_ms, c),
    ensures
        forall|cands2: Seq<Candidate>, rej2: Seq<RejectedOption>| #[trigger] outcome_holds(cands2, rej2, o, cfg, snaps) ==> cands_fit(request, cands2, cfg),
{
    let ksh = cfg.continuity.keep_small_worker_hot;
    let mbw = cfg.continuity.max_blank_wait_ms;
    assert forall|cands2: Seq<Candidate>, rej2: Seq<RejectedOption>| #[trigger] outcome_holds(cands2, rej2, o, cfg, snaps) implies cands_fit(request, cands2, cfg) by {
        lemma_same_keys(request, cands, cands2, o.0, cfg, snaps);
        assert forall|k: int| 0 <= k < cands2.len() implies score_fits(request, #[trigger] cands2[k], ksh) by {
            assert(score_fits(request, cands[k], ksh));
        }
        if stages_background(request, cands2, cfg) {
            let i2 = choose|i: int| 0 <= i < cands2.len() && is_hot_or_warm(#[trigger] cands2[i]);
            assert(is_hot_or_warm(cands[i2]));
            let j2 = choose|i: int| 0 <= i < cands2.len() && is_cold_large(#[trigger] cands2[i], mbw);
            assert(is_cold_large(cands[j2], mbw));
            assert(is_top_cold(cands, mbw, c));
            assert(is_top_cold(cands2, mbw, c)) by {
                assert forall|j: int| 0 <= j < cands2.len() && is_cold_large(#[trigger] cands2[j], mbw) implies cold_rank_le(cands2[j], cands2[c]) by {
                    assert(is_cold_large(cands[j], mbw));
                    assert(cold_rank_le(cands[j], cands[c]));
                }
            }
            lemma_top_cold_same(cands2, o.0, cfg, snaps, mbw, c);
            lemma_top_cold_same(cands, o.0, cfg, snaps, mbw, c);
            assert(stages_background(request, cands, cfg));
            assert(is_first_best(request, cands, ksh, true, h));
            assert(is_first_best(request, cands2, ksh, true, h)) by {
                assert forall|j: int| 0 <= j < cands2.len() && is_hot_or_warm(#[trigger] cands2[j]) implies cand_total(request, cands2[j], ksh) <= cand_total(request, cands2[h], ksh) by {
                    assert(is_hot_or_warm(cands[j]));
                }
                assert forall|j: int| 0 <= j < h && is_hot_or_warm(#[trigger] cands2[j]) implies cand_total(request, cands2[j], ksh) < cand_total(request, cands2[h], ksh) by {
                    assert(is_hot_or_warm(cands[j]));
                }
            }
            lemma_first_best_unique(request, cands2, ksh, true, h);
            lemma_first_best_unique(request, cands, ksh, true, h);
        }
    }
}

impl Scheduler {
    /// Chooses among the candidates `set` generated for `request`: the first
    /// highest-scoring candidate, unless continuity policy stages a large cold
    /// model in the background while the best hot or warm candidate answers
    /// now; a `Deny` decision when there is none. `None` when the score
    /// arithmetic would leave `i32`.
    #[verifier::rlimit(40)]
    fn decide_among(&self, request: &InferenceRequest, set: CandidateSet, Ghost(snaps): Ghost<Seq<RuntimeSnapshot>>) -> (r: Option<Decision>)
        requires
            self.config.has_domain(request.domain.0@),
            self.config.domain(request.domain.0@).rosters@.len() > 0,
            outcome_holds(set.candidates@, set.rejected_options@, roster_outcome(self.config, self.config.domain(request.domain.0@).rosters@, snaps, self.config.domain(request.domain.0@).rosters@.len() as int), self.config, snaps),
        ensures
            r is None <==> !cands_fit(*request, set.candidates@, self.config),
            r is Some ==> decide_fits(self.config, *request, snaps),
            r matches Some(d) ==> decision_matches(d, *request, set.candidates@, set.rejected_options@, self.config),
    {
        let cfg = &self.config;
        let ghost roster = cfg.domain(request.domain.0@).rosters@;
        let ghost outcome = roster_outcome(*cfg, roster, snaps, roster.len() as int);
        let CandidateSet { candidates, rejected_options } = set;
        let ghost cands = candidates@;
        let ghost ksh = cfg.continuity.keep_small_worker_hot;
        let mut scored: Vec<ScoredCandidate> = Vec::new();
        let mut i: usize = 0;
        while i < candidates.len()
            invariant
                cands == candidates@,
                cands == set.candidates@,
                *cfg == self.config,
                ksh == cfg.continuity.keep_small_worker_hot,
                i <= cands.len(),
                scored@.len() == i,
                forall|k: int| 0 <= k < i ==> scored_ok(#[trigger] scored@[k], *request, cands[k], ksh),
                forall|k: int| 0 <= k < i ==> score_fits(*request, #[trigger] cands[k], ksh),
            decreases cands.len() - i,
        {
            match score_checked(request, &candidates[i], cfg) {
                Some(s) => scored.push(s),
                None => {
                    proof {
                        assert(!score_fits(*request, cands[i as int], ksh));
                    }
                    return None;
                },
            }
            i = i + 1;
        }
        proof {
            assert(scored_list(scored@, cands, *request, ksh)) by {
                assert forall|k: int| 0 <= k < cands.len() implies {
                    &&& (#[trigger] scored@[k]).action == cands[k].action
                    &&& scored@[k].candidate.same(cands[k])
                    &&& scored@[k].background_model is None
                    &&& scored_as(scored@[k].score, scored@[k].reasons@, score_terms(*request, cands[k], ksh))
                } by {
                    assert(scored_ok(scored@[k], *request, cands[k], ksh));
                }
            }
        }
        if scored.len() == 0 {
            proof {
                lemma_fit_for_all(*request, cands, rejected_options@, outcome, *cfg, snaps, 0, 0);
            }
            return Some(deny_decision(request, rejected_options));
        }
        let mbw = cfg.continuity.max_blank_wait_ms;
        let best = find_best(&scored, Ghost(cands), Ghost(*request), Ghost(ksh), false).unwrap();
        let hot = find_best(&scored, Ghost(cands), Ghost(*request), Ghost(ksh), true);
        let cold = find_top_cold(&scored, Ghost(cands), Ghost(*request), Ghost(ksh), mbw);
        let budget: u64 = match request.latency_budget_ms {
            Some(b) => b,
            None => u64::MAX,
        };
        proof {
            lemma_first_best_unique(*request, cands, ksh, false, best as int);
        }
        if let (Some(h), Some(c)) = (hot, cold) {
            proof {
                lemma_first_best_unique(*request, cands, ksh, true, h as int);
                lemma_top_cold_same(cands, outcome.0, *cfg, snaps, mbw, c as int);
                assert(scored@[c as int].candidate.same(cands[c as int]));
            }
            if cfg.continuity.background_load && cfg.continuity.prefer_degraded_response_over_silence
                && budget < scored[c].candidate.load_estimate_ms {
                proof {
                    assert(stages_background(*request, cands, *cfg));
                    assert(scored@[h as int].score.total as int == cand_total(*request, cands[h as int], ksh));
                }
                if scored[h].score.total > 2147483597i32 {
                    return None;
                }
                let cold_model = scored[c].candidate.model_id.clone();
                let cold_load = scored[c].candidate.load_estimate_ms;
                let ghost hot_cand = cands[h as int];
                let ghost terms = score_terms(*request, hot_cand, ksh);
                let mut staged = scored.remove(h);
                let mut detail = owned("selected hot ");
                push_str(&mut detail, staged.candidate.model_id.0.as_str());
                push_str(&mut detail, " now and staged ");
                push_str(&mut detail, cold_model.0.as_str());
                push_str(&mut detail, " because cold load estimate ");
                push_decimal(&mut detail, cold_load);
                push_str(&mut detail, "ms exceeded latency budget ");
                push_decimal(&mut detail, budget);
                push_str(&mut detail, "ms and continuity policy prefers degraded response over silence");
                let ghost old_contrib = staged.score.contributions@;
                let ghost old_reasons = staged.reasons@;
                staged.action = DecisionAction::StageBackground;
                staged.background_model = Some(cold_model);
                staged.reasons.push(DecisionReason { code: owned("continuity.stage_background"), detail, impact: 50 });
                staged.score.contributions.push(ScoreContribution { label: owned("continuity background staging"), value: 50 });
                staged.score.total = staged.score.total + 50;
                let d = staged.into_decision(request, rejected_options);
                proof {
                    assert(d.score.contributions@ == old_contrib.push(d.score.contributions@[terms.len() as int]));
                    assert(forall|k: int| 0 <= k < terms.len() ==> d.score.contributions@[k] == old_contrib[k]);
                    assert(forall|k: int| 0 <= k < terms.len() ==> d.explanation.reasons@[k] == old_reasons[k]);
                    assert(decision_matches(d, *request, cands, rejected_options@, *cfg));
                    lemma_fit_for_all(*request, cands, rejected_options@, outcome, *cfg, snaps, h as int, c as int);
                }
                return Some(d);
            }
            proof {
                assert(!stages_background(*request, cands, *cfg));
            }
        } else {
            proof {
                assert(!stages_background(*request, cands, *cfg));
            }
        }
        proof {
            let h: int = match hot {
                Some(h) => h as int,
                None => 0,
            };
            let c: int = match cold {
                Some(c) => c as int,
                None => 0,
            };
            lemma_fit_for_all(*request, cands, rejected_options@, outcome, *cfg, snaps, h, c);
        }
        let chosen = scored.remove(best);
        let d = chosen.into_decision(request, rejected_options);
        proof {
            assert(decision_matches(d, *request, cands, rejected_options@, *cfg));
        }
        Some(d)
    }

    /// Decides how to serve `request`: the first highest-scoring candidate,
    /// unless continuity policy stages a large cold model in the background
    /// while the best hot or warm candidate answers now; a `Deny` decision when
    /// no candidate can run.
    pub fn decide(&self, request: &InferenceRequest, snapshots: &Vec<RuntimeSnapshot>) -> (r: Result<Decision, PolicyError>)
        requires
            decide_fits(self.config, *request, snapshots@),
        ensures
            decide_outcome(self.config, *request, snapshots@, r),
    {
        let generated = match self.generate_candidates(request, snapshots) {
            Ok(g) => g,
            Err(e) => return Err(e),
        };
        let ghost cands = generated.candidates@;
        let ghost rejected = generated.rejected_options@;
        proof {
            let roster = self.config.domain(request.domain.0@).rosters@;
            assert(outcome_holds(cands, rejected, roster_outcome(self.config, roster, snapshots@, roster.len() as int), self.config, snapshots@));
        }
        let d = self.decide_among(request, generated, Ghost(snapshots@));
        Ok(d.unwrap())
    }

    /// Decides as `decide` does, or `None` where that would overflow the score
    /// arithmetic (the inputs `decide` does not take).
    pub fn try_decide(&self, request: &InferenceRequest, snapshots: &Vec<RuntimeSnapshot>) -> (r: Option<Result<Decision, PolicyError>>)
        ensures
            r is None <==> !decide_fits(self.config, *request, snapshots@),
            r matches Some(x) ==> decide_outcome(self.config, *request, snapshots@, x),
    {
        let generated = match self.generate_candidates(request, snapshots) {
            Ok(g) => g,
            Err(e) => return Some(Err(e)),
        };
        let ghost cands = generated.candidates@;
        let ghost rejected = generated.rejected_options@;
        let ghost roster = self.config.domain(request.domain.0@).rosters@;
        proof {
            assert(outcome_holds(cands, rejected, roster_outcome(self.config, roster, snapshots@, roster.len() as int), self.config, snapshots@));
        }
        match self.decide_among(request, generated, Ghost(snapshots@)) {
            Some(d) => Some(Ok(d)),
            None => None,
        }
    }
}

} // verus!
