//! Eviction and pinning policy: which residents may be evicted to free
//! capacity. Keep-hot continuity workers and pinned models are protected and
//! actively serving models are blocked, unless a force policy overrides
//! protection. The planner never changes a runtime.
use vstd::prelude::*;
use crate::model::{DecisionReason, ModelId, ResidencyState, RuntimeId};
use crate::sorting::{SortKey, is_stable_sort, lemma_sorted_elements, lemma_stable_sort_map, stable_sort};
use crate::text::{lemma_text_le_reflexive, lemma_text_le_total, lemma_text_le_transitive, owned, push_str, str_le, text_le};

verus! {

/// A resident under consideration for eviction, with the policy flags already
/// resolved from configuration and runtime state.
#[derive(Debug, PartialEq, Eq)]
pub struct EvictionCandidateResident {
    pub model_id: ModelId,
    pub runtime_id: RuntimeId,
    pub state: ResidencyState,
    /// Member of a keep-hot continuity group.
    pub keep_hot: bool,
    /// Member of a pinned residency group.
    pub pinned: bool,
    /// Idle time in seconds; `None` means unknown.
    pub idle_secs: Option<u64>,
}

impl EvictionCandidateResident {
    /// Whether the resident is actively serving.
    pub fn is_serving(&self) -> (r: bool)
        ensures
            r == (self.state == ResidencyState::Serving),
    {
        matches!(self.state, ResidencyState::Serving)
    }
}

/// The residents to plan over, and whether a force policy overrides
/// keep-hot, pinning and serving protections.
#[derive(Debug)]
pub struct EvictionRequest<'a> {
    pub residents: &'a [EvictionCandidateResident],
    pub force: bool,
}

/// A resident eligible for eviction.
#[derive(Debug, PartialEq, Eq)]
pub struct EvictionCandidate {
    pub model_id: ModelId,
    pub runtime_id: RuntimeId,
    pub idle_secs: Option<u64>,
    pub reason: String,
}

/// A resident protected from eviction.
#[derive(Debug, PartialEq, Eq)]
pub struct ProtectedResident {
    pub model_id: ModelId,
    pub reason: String,
}

/// A resident whose eviction is blocked.
#[derive(Debug, PartialEq, Eq)]
pub struct BlockedEviction {
    pub model_id: ModelId,
    pub reason: String,
}

/// The outcome of eviction planning: ranked candidates, protected residents,
/// blocked residents, and one reason per resident.
#[derive(Debug, PartialEq, Eq, Default)]
pub struct EvictionPlan {
    pub candidates: Vec<EvictionCandidate>,
    pub protected: Vec<ProtectedResident>,
    pub blocked: Vec<BlockedEviction>,
    pub reasons: Vec<DecisionReason>,
}

impl EvictionPlan {
    /// Whether nothing may be evicted.
    pub fn is_empty(&self) -> (r: bool)
        ensures
            r == (self.candidates@.len() == 0),
    {
        self.candidates.len() == 0
    }
}

/// `(model, runtime, idle seconds, reason)`.
pub type CandidateView = (Seq<char>, Seq<char>, Option<u64>, Seq<char>);

/// `(model, reason)`.
pub type NoteView = (Seq<char>, Seq<char>);

/// `(code, detail, impact)`.
pub type ReasonView = (Seq<char>, Seq<char>, i32);

pub open spec fn candidate_view(c: EvictionCandidate) -> CandidateView {
    (c.model_id.0@, c.runtime_id.0@, c.idle_secs, c.reason@)
}

pub open spec fn candidate_view_of() -> spec_fn(EvictionCandidate) -> CandidateView {
    |c: EvictionCandidate| candidate_view(c)
}

pub open spec fn protected_view_of() -> spec_fn(ProtectedResident) -> NoteView {
    |p: ProtectedResident| (p.model_id.0@, p.reason@)
}

pub open spec fn blocked_view_of() -> spec_fn(BlockedEviction) -> NoteView {
    |b: BlockedEviction| (b.model_id.0@, b.reason@)
}

pub open spec fn reason_view_of() -> spec_fn(DecisionReason) -> ReasonView {
    |r: DecisionReason| (r.code@, r.detail@, r.impact)
}

pub open spec fn idle_rank(idle: Option<u64>) -> u64 {
    match idle {
        Some(s) => s,
        None => 0,
    }
}

/// Candidates rank by idle time, most idle first (unknown counts as zero),
/// then by model id.
pub open spec fn evict_le(a: CandidateView, b: CandidateView) -> bool {
    idle_rank(a.2) > idle_rank(b.2) || (idle_rank(a.2) == idle_rank(b.2) && text_le(a.0, b.0))
}

pub open spec fn evict_order() -> spec_fn(CandidateView, CandidateView) -> bool {
    |a: CandidateView, b: CandidateView| evict_le(a, b)
}

impl SortKey for EvictionCandidate {
    open spec fn spec_le(a: Self, b: Self) -> bool {
        evict_le(candidate_view(a), candidate_view(b))
    }

    proof fn lemma_total_preorder() {
        let le = |a: Self, b: Self| Self::spec_le(a, b);
        assert forall|a: Self| #[trigger] le(a, a) by {
            lemma_text_le_reflexive(a.model_id.0@);
        }
        assert forall|a: Self, b: Self, c: Self| #[trigger] le(a, b) && #[trigger] le(b, c) implies le(a, c) by {
            if idle_rank(a.idle_secs) == idle_rank(b.idle_secs) && idle_rank(b.idle_secs) == idle_rank(c.idle_secs) {
                lemma_text_le_transitive(a.model_id.0@, b.model_id.0@, c.model_id.0@);
            }
        }
        assert forall|a: Self, b: Self| #[trigger] le(a, b) || #[trigger] le(b, a) by {
            lemma_text_le_total(a.model_id.0@, b.model_id.0@);
        }
    }

    fn le(&self, other: &Self) -> (r: bool) {
        let a = match self.idle_secs {
            Some(s) => s,
            None => 0,
        };
        let b = match other.idle_secs {
            Some(s) => s,
            None => 0,
        };
        a > b || (a == b && str_le(self.model_id.0.as_str(), other.model_id.0.as_str()))
    }
}

/// What the planner does with one resident: 0 protect (keep-hot), 1 protect
/// (pinned), 2 block (serving), 3 offer as a candidate.
pub open spec fn eviction_class(r: EvictionCandidateResident, force: bool) -> int {
    if r.keep_hot && !force {
        0
    } else if r.pinned && !force {
        1
    } else if r.state == ResidencyState::Serving && !force {
        2
    } else {
        3
    }
}

pub open spec fn eligible_reason() -> Seq<char> {
    "idle, unpinned resident eligible for eviction"@
}

/// The reason recorded for one resident.
pub open spec fn resident_reason(r: EvictionCandidateResident, force: bool) -> ReasonView {
    let m = r.model_id.0@;
    let c = eviction_class(r, force);
    if c == 0 {
        ("eviction.protected.keep_hot"@, m + " is protected as a keep-hot continuity worker"@, 0)
    } else if c == 1 {
        ("eviction.protected.pinned"@, m + " is protected because its residency group is pinned"@, 0)
    } else if c == 2 {
        ("eviction.blocked.serving"@, m + " is actively serving and cannot be evicted without force"@, 0)
    } else {
        ("eviction.candidate"@, m + " is an eligible eviction candidate"@, 0)
    }
}

/// The plan for the first `n` residents before candidates are ranked:
/// candidates, protected, blocked and reasons, each in resident order.
pub open spec fn eviction_outcome(residents: Seq<EvictionCandidateResident>, force: bool, n: int)
    -> (Seq<CandidateView>, Seq<NoteView>, Seq<NoteView>, Seq<ReasonView>)
    decreases n,
{
    if n <= 0 {
        (seq![], seq![], seq![], seq![])
    } else {
        let p = eviction_outcome(residents, force, n - 1);
        let r = residents[n - 1];
        let m = r.model_id.0@;
        let c = eviction_class(r, force);
        let reasons = p.3.push(resident_reason(r, force));
        if c == 0 {
            (p.0, p.1.push((m, "keep-hot continuity worker is protected from eviction"@)), p.2, reasons)
        } else if c == 1 {
            (p.0, p.1.push((m, "pinned model is protected from eviction"@)), p.2, reasons)
        } else if c == 2 {
            (p.0, p.1, p.2.push((m, "model is actively serving; eviction requires a force policy"@)), reasons)
        } else {
            (p.0.push((m, r.runtime_id.0@, r.idle_secs, eligible_reason())), p.1, p.2, reasons)
        }
    }
}

/// Plans evictions over the supplied residents; pure and side-effect free.
/// Candidates are ranked most idle first (an unknown idle time counts as
/// zero), ties broken by model id, the ranking stable.
pub fn plan_evictions(request: &EvictionRequest) -> (plan: EvictionPlan)
    ensures
        ({
            let o = eviction_outcome(request.residents@, request.force, request.residents@.len() as int);
            &&& is_stable_sort(plan.candidates@.map_values(candidate_view_of()), o.0, evict_order())
            &&& plan.protected@.map_values(protected_view_of()) == o.1
            &&& plan.blocked@.map_values(blocked_view_of()) == o.2
            &&& plan.reasons@.map_values(reason_view_of()) == o.3
        }),
{
    let residents = request.residents;
    let force = request.force;
    let mut candidates: Vec<EvictionCandidate> = Vec::new();
    let mut protected: Vec<ProtectedResident> = Vec::new();
    let mut blocked: Vec<BlockedEviction> = Vec::new();
    let mut reasons: Vec<DecisionReason> = Vec::new();
    let mut i: usize = 0;
    while i < residents.len()
        invariant
            residents@ == request.residents@,
            force == request.force,
            i <= residents@.len(),
            ({
                let o = eviction_outcome(residents@, force, i as int);
                &&& candidates@.map_values(candidate_view_of()) == o.0
                &&& protected@.map_values(protected_view_of()) == o.1
                &&& blocked@.map_values(blocked_view_of()) == o.2
                &&& reasons@.map_values(reason_view_of()) == o.3
            }),
        decreases residents@.len() - i,
    {
        let r = &residents[i];
        let m = r.model_id.0.as_str();
        let ghost before = (candidates@, protected@, blocked@, reasons@);
        if r.keep_hot && !force {
            protected.push(ProtectedResident { model_id: r.model_id.clone(), reason: owned("keep-hot continuity worker is protected from eviction") });
            let mut d = owned(m);
            push_str(&mut d, " is protected as a keep-hot continuity worker");
            reasons.push(DecisionReason { code: owned("eviction.protected.keep_hot"), detail: d, impact: 0 });
        } else if r.pinned && !force {
            protected.push(ProtectedResident { model_id: r.model_id.clone(), reason: owned("pinned model is protected from eviction") });
            let mut d = owned(m);
            push_str(&mut d, " is protected because its residency group is pinned");
            reasons.push(DecisionReason { code: owned("eviction.protected.pinned"), detail: d, impact: 0 });
        } else if r.is_serving() && !force {
            blocked.push(BlockedEviction { model_id: r.model_id.clone(), reason: owned("model is actively serving; eviction requires a force policy") });
            let mut d = owned(m);
            push_str(&mut d, " is actively serving and cannot be evicted without force");
            reasons.push(DecisionReason { code: owned("eviction.blocked.serving"), detail: d, impact: 0 });
        } else {
            candidates.push(EvictionCandidate {
                model_id: r.model_id.clone(),
                runtime_id: r.runtime_id.clone(),
                idle_secs: r.idle_secs,
                reason: owned("idle, unpinned resident eligible for eviction"),
            });
            let mut d = owned(m);
            push_str(&mut d, " is an eligible eviction candidate");
            reasons.push(DecisionReason { code: owned("eviction.candidate"), detail: d, impact: 0 });
        }
        proof {
            let o = eviction_outcome(residents@, force, i + 1);
            assert(candidates@.map_values(candidate_view_of()) =~= o.0);
            assert(protected@.map_values(protected_view_of()) =~= o.1);
            assert(blocked@.map_values(blocked_view_of()) =~= o.2);
            assert(reasons@.map_values(reason_view_of()) =~= o.3);
        }
        i = i + 1;
    }
    let ghost unsorted = candidates@;
    let sorted = stable_sort(candidates);
    proof {
        lemma_stable_sort_map(
            sorted@,
            unsorted,
            |a: EvictionCandidate, b: EvictionCandidate| EvictionCandidate::spec_le(a, b),
            candidate_view_of(),
            evict_order(),
        );
    }
    EvictionPlan { candidates: sorted, protected, blocked, reasons }
}

/// Every resident is accounted for once: it is a candidate, protected or
/// blocked, and it has exactly one reason.
pub proof fn lemma_every_resident_accounted(residents: Seq<EvictionCandidateResident>, force: bool, n: int)
    requires
        0 <= n <= residents.len(),
    ensures
        ({
            let o = eviction_outcome(residents, force, n);
            &&& o.0.len() + o.1.len() + o.2.len() == n
            &&& o.3.len() == n
            &&& forall|i: int| 0 <= i < n ==> o.3[i] == resident_reason(#[trigger] residents[i], force)
        }),
    decreases n,
{
    if n > 0 {
        lemma_every_resident_accounted(residents, force, n - 1);
    }
}

/// Under a force policy nothing is protected or blocked: every resident is
/// a candidate.
pub proof fn lemma_force_offers_every_resident(residents: Seq<EvictionCandidateResident>, n: int)
    requires
        0 <= n <= residents.len(),
    ensures
        eviction_outcome(residents, true, n).0.len() == n,
        eviction_outcome(residents, true, n).1.len() == 0,
        eviction_outcome(residents, true, n).2.len() == 0,
    decreases n,
{
    if n > 0 {
        lemma_force_offers_every_resident(residents, n - 1);
    }
}

/// Without a force policy, each candidate is a resident that is neither a
/// keep-hot worker, pinned, nor serving.
pub proof fn lemma_candidates_unprotected(residents: Seq<EvictionCandidateResident>, force: bool, n: int)
    requires
        0 <= n <= residents.len(),
    ensures
        forall|k: int| 0 <= k < eviction_outcome(residents, force, n).0.len() ==> exists|i: int|
            0 <= i < n && (#[trigger] residents[i]).model_id.0@ == (#[trigger] eviction_outcome(residents, force, n).0[k]).0
                && (!force ==> !residents[i].keep_hot && !residents[i].pinned && residents[i].state != ResidencyState::Serving),
    decreases n,
{
    if n > 0 {
        lemma_candidates_unprotected(residents, force, n - 1);
        let p = eviction_outcome(residents, force, n - 1);
        let o = eviction_outcome(residents, force, n);
        assert forall|k: int| 0 <= k < o.0.len() implies exists|i: int|
            0 <= i < n && (#[trigger] residents[i]).model_id.0@ == (#[trigger] o.0[k]).0
                && (!force ==> !residents[i].keep_hot && !residents[i].pinned && residents[i].state != ResidencyState::Serving) by {
            if k < p.0.len() {
                assert(o.0[k] == p.0[k]);
                assert(p.0[k] == eviction_outcome(residents, force, n - 1).0[k]);
                let i = choose|i: int|
                    0 <= i < n - 1 && (#[trigger] residents[i]).model_id.0@ == p.0[k].0
                        && (!force ==> !residents[i].keep_hot && !residents[i].pinned && residents[i].state != ResidencyState::Serving);
                assert(residents[i].model_id.0@ == o.0[k].0);
            } else {
                assert(residents[n - 1].model_id.0@ == o.0[k].0);
            }
        }
    }
}

/// No keep-hot, pinned or serving resident is offered for eviction unless
/// the plan is forced: every candidate of a plan names an unprotected
/// resident.
pub proof fn lemma_plan_never_offers_protected(plan: EvictionPlan, residents: Seq<EvictionCandidateResident>, force: bool)
    requires
        is_stable_sort(
            plan.candidates@.map_values(candidate_view_of()),
            eviction_outcome(residents, force, residents.len() as int).0,
            evict_order(),
        ),
    ensures
        forall|k: int| 0 <= k < plan.candidates@.len() ==> exists|i: int|
            0 <= i < residents.len() && (#[trigger] residents[i]).model_id.0@ == (#[trigger] plan.candidates@[k]).model_id.0@
                && (!force ==> !residents[i].keep_hot && !residents[i].pinned && residents[i].state != ResidencyState::Serving),
{
    let o = eviction_outcome(residents, force, residents.len() as int);
    let views = plan.candidates@.map_values(candidate_view_of());
    lemma_sorted_elements(views, o.0, evict_order());
    lemma_candidates_unprotected(residents, force, residents.len() as int);
    assert forall|k: int| 0 <= k < plan.candidates@.len() implies exists|i: int|
        0 <= i < residents.len() && (#[trigger] residents[i]).model_id.0@ == (#[trigger] plan.candidates@[k]).model_id.0@
            && (!force ==> !residents[i].keep_hot && !residents[i].pinned && residents[i].state != ResidencyState::Serving) by {
        assert(o.0.contains(views[k]));
        let j = choose|j: int| 0 <= j < o.0.len() && o.0[j] == views[k];
        assert(views[k].0 == plan.candidates@[k].model_id.0@);
        assert(o.0[j] == eviction_outcome(residents, force, residents.len() as int).0[j]);
        let i = choose|i: int|
            0 <= i < residents.len() && (#[trigger] residents[i]).model_id.0@ == o.0[j].0
                && (!force ==> !residents[i].keep_hot && !residents[i].pinned && residents[i].state != ResidencyState::Serving);
    }
}

} // verus!
