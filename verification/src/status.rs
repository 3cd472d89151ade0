//! The operator status view: every configured runtime and residency group as
//! the reconciled cache shows it, with missing or aged data labeled as such.
use vstd::prelude::*;
use crate::config::{group_key, AnemoiConfig};
use crate::keyed::has_key;
use crate::model::{ModelId, ModelResident, ResidencyState};
use crate::reconcile::ReconciledSnapshot;
use crate::sorting::{SortKey, is_stable_sort, lemma_sorted_elements, lemma_stable_sort_map, stable_sort};
use crate::staging::{count_in, StagingIntent, StagingState, StagingSummary};
use crate::text::{owned, push_str, str_eq, text_le};

verus! {

/// One resident as the status view shows it; `idle_secs` is `None` when the
/// load time is unknown.
#[derive(Debug, PartialEq, Eq)]
pub struct ResidentStatus {
    pub model_id: String,
    pub state: ResidencyState,
    pub idle_secs: Option<u64>,
}

/// One configured runtime as the status view shows it.
#[derive(Debug, PartialEq, Eq)]
pub struct RuntimeStatus {
    pub runtime_id: String,
    pub adapter: String,
    /// `available`, `unavailable`, or `unknown` (never inspected).
    pub availability: String,
    /// `fresh`, `stale`, or `unknown` (never inspected).
    pub freshness: String,
    /// Milliseconds since the Unix epoch.
    pub last_inspected: Option<i64>,
    pub last_error: Option<String>,
    pub active_request_count: usize,
    pub residents: Vec<ResidentStatus>,
}

/// The health of one residency group.
#[derive(Debug, PartialEq, Eq)]
pub struct GroupHealth {
    pub group_id: String,
    pub keep_hot: bool,
    pub pinned: bool,
    pub member_count: usize,
    pub hot_resident_count: usize,
    /// `healthy`, `degraded` (keep-hot group with no hot resident), or
    /// `unknown` (nothing reconciled yet).
    pub health: String,
}

/// The consolidated operator view of all governance state.
#[derive(Debug, PartialEq, Eq)]
pub struct OperatorStatus {
    /// Whether any runtime has been inspected yet.
    pub cache_populated: bool,
    /// One entry per configured runtime, including those never inspected.
    pub runtimes: Vec<RuntimeStatus>,
    pub residency_groups: Vec<GroupHealth>,
    pub active_request_count: usize,
    pub staging: StagingSummary,
    pub recent_decision_count: usize,
    pub policy_warnings: Vec<String>,
    pub live_execution_enabled: bool,
}

/// Whole seconds from `since` to `now` (milliseconds), zero when `since` is
/// not in the past.
pub open spec fn idle_from(since: i64, now: i64) -> u64 {
    if now - since <= 0 {
        0
    } else {
        ((now - since) / 1000) as u64
    }
}

/// The status row of a resident at time `now`: id, state, idle seconds.
pub open spec fn resident_row(m: ModelResident, now: i64) -> (Seq<char>, ResidencyState, Option<u64>) {
    (
        m.model_id.0@,
        m.state,
        match m.loaded_since {
            Some(since) => Some(idle_from(since, now)),
            None => None,
        },
    )
}

pub open spec fn resident_status_view(r: ResidentStatus) -> (Seq<char>, ResidencyState, Option<u64>) {
    (r.model_id@, r.state, r.idle_secs)
}

/// `i` is the last entry of `rs` reporting runtime `id`.
pub open spec fn is_latest(rs: Seq<ReconciledSnapshot>, id: Seq<char>, i: int) -> bool {
    &&& 0 <= i < rs.len()
    &&& rs[i].snapshot.runtime_id.0@ == id
    &&& forall|j: int| i < j < rs.len() ==> (#[trigger] rs[j]).snapshot.runtime_id.0@ != id
}

/// Whether some entry of `rs` reports runtime `id`.
pub open spec fn has_report(rs: Seq<ReconciledSnapshot>, id: Seq<char>) -> bool {
    exists|i: int| 0 <= i < rs.len() && (#[trigger] rs[i]).snapshot.runtime_id.0@ == id
}

/// The last entry reporting runtime `id` (meaningful when
/// `has_report(rs, id)`).
pub open spec fn latest(rs: Seq<ReconciledSnapshot>, id: Seq<char>) -> ReconciledSnapshot {
    rs[choose|i: int| is_latest(rs, id, i)]
}

proof fn lemma_latest_unique(rs: Seq<ReconciledSnapshot>, id: Seq<char>, i: int)
    requires
        is_latest(rs, id, i),
    ensures
        has_report(rs, id),
        latest(rs, id) == rs[i],
{
    let c = choose|c: int| is_latest(rs, id, c);
    assert(is_latest(rs, id, c));
    if c < i {
        assert(rs[i].snapshot.runtime_id.0@ != id);
    } else if i < c {
        assert(rs[c].snapshot.runtime_id.0@ != id);
    }
}

/// The label of a configured runtime's availability.
pub open spec fn availability_label(rs: Seq<ReconciledSnapshot>, id: Seq<char>) -> Seq<char> {
    if !has_report(rs, id) {
        "unknown"@
    } else if latest(rs, id).snapshot.available {
        "available"@
    } else {
        "unavailable"@
    }
}

/// The label of a configured runtime's freshness.
pub open spec fn freshness_label(rs: Seq<ReconciledSnapshot>, id: Seq<char>) -> Seq<char> {
    if !has_report(rs, id) {
        "unknown"@
    } else if latest(rs, id).is_stale {
        "stale"@
    } else {
        "fresh"@
    }
}

/// The active requests of runtime `id` as last reported, zero when never
/// reported.
pub open spec fn active_of(rs: Seq<ReconciledSnapshot>, id: Seq<char>) -> nat {
    if has_report(rs, id) {
        latest(rs, id).snapshot.active_requests@.len()
    } else {
        0
    }
}

/// `row` is the status of the configured runtime it names.
pub open spec fn runtime_row_ok(cfg: AnemoiConfig, rs: Seq<ReconciledSnapshot>, now: i64, row: RuntimeStatus) -> bool {
    let id = row.runtime_id@;
    &&& row.adapter@ == (if cfg.has_runtime(id) { cfg.runtime(id).adapter@ } else { "unknown"@ })
    &&& row.availability@ == availability_label(rs, id)
    &&& row.freshness@ == freshness_label(rs, id)
    &&& row.active_request_count == active_of(rs, id)
    &&& if has_report(rs, id) {
        let r = latest(rs, id);
        &&& row.last_inspected == Some(r.last_inspected)
        &&& row.last_error == r.last_error
        &&& row.residents@.map_values(|x: ResidentStatus| resident_status_view(x))
            == r.snapshot.residents@.map_values(|m: ModelResident| resident_row(m, now))
    } else {
        &&& row.last_inspected is None
        &&& row.last_error is None
        &&& row.residents@.len() == 0
    }
}

/// The active requests of the first `n` configured runtimes, summed.
pub open spec fn active_total(cfg: AnemoiConfig, rs: Seq<ReconciledSnapshot>, n: int) -> nat
    decreases n,
{
    if n <= 0 {
        0
    } else {
        active_total(cfg, rs, n - 1) + active_of(rs, cfg.runtimes@[n - 1].0.0@)
    }
}

pub open spec fn is_hot_state(s: ResidencyState) -> bool {
    s == ResidencyState::HotGpu || s == ResidencyState::Serving
}

/// Whether model `m` is hot (on GPU or serving) on some runtime, by the
/// last report of each runtime.
pub open spec fn hot_model(rs: Seq<ReconciledSnapshot>, m: Seq<char>) -> bool {
    exists|i: int, j: int|
        #![trigger rs[i].snapshot.residents@[j]]
        is_latest(rs, rs[i].snapshot.runtime_id.0@, i) && 0 <= j < rs[i].snapshot.residents@.len()
            && rs[i].snapshot.residents@[j].model_id.0@ == m && is_hot_state(rs[i].snapshot.residents@[j].state)
}

/// How many of `models` are hot.
pub open spec fn hot_count(rs: Seq<ReconciledSnapshot>, models: Seq<ModelId>) -> nat
    decreases models.len(),
{
    if models.len() == 0 {
        0
    } else {
        hot_count(rs, models.drop_last()) + if hot_model(rs, models.last().0@) { 1nat } else { 0nat }
    }
}

/// The health label of a group.
pub open spec fn health_label(populated: bool, degraded: bool) -> Seq<char> {
    if !populated {
        "unknown"@
    } else if degraded {
        "degraded"@
    } else {
        "healthy"@
    }
}

/// `row` is the health of the configured residency group it names.
pub open spec fn group_row_ok(cfg: AnemoiConfig, rs: Seq<ReconciledSnapshot>, row: GroupHealth) -> bool {
    let g = cfg.group(row.group_id@);
    let hot = hot_count(rs, g.models@);
    &&& cfg.has_group(row.group_id@)
    &&& row.keep_hot == g.keep_hot
    &&& row.pinned == g.pinned
    &&& row.member_count == g.models@.len()
    &&& row.hot_resident_count == hot
    &&& row.health@ == health_label(rs.len() > 0, g.keep_hot && hot == 0)
}

/// The warning for a keep-hot group with no hot resident.
pub open spec fn warning_text(group: Seq<char>) -> Seq<char> {
    "keep-hot group '"@ + group + "' has no hot residents"@
}

/// The warnings for the degraded groups among `rows`, in order.
pub open spec fn warnings_of(rows: Seq<GroupHealth>) -> Seq<Seq<char>>
    decreases rows.len(),
{
    if rows.len() == 0 {
        seq![]
    } else if rows.last().health@ == "degraded"@ {
        warnings_of(rows.drop_last()).push(warning_text(rows.last().group_id@))
    } else {
        warnings_of(rows.drop_last())
    }
}

/// Whole seconds a resident loaded at `since` has been idle at `now`.
pub fn idle_secs(since: i64, now: i64) -> (r: u64)
    ensures
        r == idle_from(since, now),
{
    let d: i128 = now as i128 - since as i128;
    if d <= 0 {
        0
    } else {
        (d / 1000) as u64
    }
}

fn resident_rows(residents: &Vec<ModelResident>, now: i64) -> (r: Vec<ResidentStatus>)
    ensures
        r@.map_values(|x: ResidentStatus| resident_status_view(x)) == residents@.map_values(
            |m: ModelResident| resident_row(m, now),
        ),
{
    let mut out: Vec<ResidentStatus> = Vec::new();
    let mut i: usize = 0;
    while i < residents.len()
        invariant
            i <= residents@.len(),
            out@.len() == i,
            forall|k: int| 0 <= k < i ==> resident_status_view(#[trigger] out@[k]) == resident_row(residents@[k], now),
        decreases residents@.len() - i,
    {
        let m = &residents[i];
        let idle = match m.loaded_since {
            Some(since) => Some(idle_secs(since, now)),
            None => None,
        };
        out.push(ResidentStatus { model_id: m.model_id.0.clone(), state: m.state, idle_secs: idle });
        i = i + 1;
    }
    proof {
        assert(out@.map_values(|x: ResidentStatus| resident_status_view(x)) =~= residents@.map_values(
            |m: ModelResident| resident_row(m, now),
        ));
    }
    out
}

/// The last entry of `rs` reporting runtime `id`.
fn find_latest(rs: &Vec<ReconciledSnapshot>, id: &str) -> (r: Option<usize>)
    ensures
        match r {
            Some(i) => is_latest(rs@, id@, i as int),
            None => !has_report(rs@, id@),
        },
{
    let mut k: usize = rs.len();
    while k > 0
        invariant
            k <= rs@.len(),
            forall|j: int| k <= j < rs@.len() ==> (#[trigger] rs@[j]).snapshot.runtime_id.0@ != id@,
        decreases k,
    {
        if str_eq(rs[k - 1].snapshot.runtime_id.0.as_str(), id) {
            return Some(k - 1);
        }
        k = k - 1;
    }
    None
}

fn clone_text(m: &Option<String>) -> (r: Option<String>)
    ensures
        r == *m,
{
    match m {
        Some(x) => Some(x.clone()),
        None => None,
    }
}

/// The status row of configured runtime `id`.
fn runtime_row(cfg: &AnemoiConfig, id: String, rs: &Vec<ReconciledSnapshot>, now: i64) -> (r: RuntimeStatus)
    ensures
        r.runtime_id == id,
        runtime_row_ok(*cfg, rs@, now, r),
{
    proof {
        reveal_strlit("unknown");
    }
    let adapter = match cfg.find_runtime(id.as_str()) {
        Some(c) => c.adapter.clone(),
        None => owned("unknown"),
    };
    match find_latest(rs, id.as_str()) {
        Some(i) => {
            proof {
                lemma_latest_unique(rs@, id@, i as int);
            }
            let r = &rs[i];
            let availability = if r.snapshot.available {
                owned("available")
            } else {
                owned("unavailable")
            };
            let freshness = if r.is_stale {
                owned("stale")
            } else {
                owned("fresh")
            };
            RuntimeStatus {
                runtime_id: id,
                adapter,
                availability,
                freshness,
                last_inspected: Some(r.last_inspected),
                last_error: clone_text(&r.last_error),
                active_request_count: r.snapshot.active_requests.len(),
                residents: resident_rows(&r.snapshot.residents, now),
            }
        },
        None => RuntimeStatus {
            runtime_id: id,
            adapter,
            availability: owned("unknown"),
            freshness: owned("unknown"),
            last_inspected: None,
            last_error: None,
            active_request_count: 0,
            residents: Vec::new(),
        },
    }
}

/// Whether entry `i` is the last one reporting its runtime.
fn latest_at(rs: &Vec<ReconciledSnapshot>, i: usize) -> (r: bool)
    requires
        i < rs@.len(),
    ensures
        r == is_latest(rs@, rs@[i as int].snapshot.runtime_id.0@, i as int),
{
    let id = rs[i].snapshot.runtime_id.0.as_str();
    let n = rs.len();
    let mut j: usize = i + 1;
    while j < rs.len()
        invariant
            i < j <= rs@.len(),
            id@ == rs@[i as int].snapshot.runtime_id.0@,
            forall|k: int| i < k < j ==> (#[trigger] rs@[k]).snapshot.runtime_id.0@ != id@,
        decreases rs@.len() - j,
    {
        if str_eq(rs[j].snapshot.runtime_id.0.as_str(), id) {
            return false;
        }
        j = j + 1;
    }
    true
}

/// Whether model `m` is hot by the last report of some runtime.
fn is_hot(rs: &Vec<ReconciledSnapshot>, m: &str) -> (r: bool)
    ensures
        r == hot_model(rs@, m@),
{
    let mut i: usize = 0;
    while i < rs.len()
        invariant
            i <= rs@.len(),
            forall|a: int, b: int|
                #![trigger rs@[a].snapshot.residents@[b]]
                0 <= a < i ==> !(is_latest(rs@, rs@[a].snapshot.runtime_id.0@, a) && 0 <= b
                    < rs@[a].snapshot.residents@.len() && rs@[a].snapshot.residents@[b].model_id.0@ == m@
                    && is_hot_state(rs@[a].snapshot.residents@[b].state)),
        decreases rs@.len() - i,
    {
        if latest_at(rs, i) {
            let residents = &rs[i].snapshot.residents;
            let mut j: usize = 0;
            while j < residents.len()
                invariant
                    i < rs@.len(),
                    *residents == rs@[i as int].snapshot.residents,
                    is_latest(rs@, rs@[i as int].snapshot.runtime_id.0@, i as int),
                    j <= residents@.len(),
                    forall|b: int|
                        0 <= b < j ==> !(#[trigger] residents@[b].model_id.0@ == m@ && is_hot_state(
                            residents@[b].state,
                        )),
                decreases residents@.len() - j,
            {
                let st = residents[j].state;
                if str_eq(residents[j].model_id.0.as_str(), m) && (st == ResidencyState::HotGpu || st
                    == ResidencyState::Serving) {
                    proof {
                        assert(rs@[i as int].snapshot.residents@[j as int] == residents@[j as int]);
                    }
                    return true;
                }
                j = j + 1;
            }
            proof {
                assert forall|b: int|
                    0 <= b < rs@[i as int].snapshot.residents@.len() implies !(
                    #[trigger] rs@[i as int].snapshot.residents@[b].model_id.0@ == m@ && is_hot_state(
                        rs@[i as int].snapshot.residents@[b].state,
                    )) by {
                    assert(rs@[i as int].snapshot.residents@[b] == residents@[b]);
                }
            }
        }
        i = i + 1;
    }
    false
}

/// The health of configured group `id`.
fn group_row(cfg: &AnemoiConfig, id: String, rs: &Vec<ReconciledSnapshot>) -> (r: GroupHealth)
    requires
        cfg.has_group(id@),
    ensures
        r.group_id == id,
        group_row_ok(*cfg, rs@, r),
{
    proof {
        reveal_strlit("unknown");
        reveal_strlit("degraded");
        reveal_strlit("healthy");
    }
    let g = match cfg.find_group(id.as_str()) {
        Some(g) => g,
        None => {
            proof {
                assert(false);
            }
            return GroupHealth {
                group_id: id,
                keep_hot: false,
                pinned: false,
                member_count: 0,
                hot_resident_count: 0,
                health: String::new(),
            };
        },
    };
    let mut hot: usize = 0;
    let mut i: usize = 0;
    while i < g.models.len()
        invariant
            i <= g.models@.len(),
            hot <= i,
            hot == hot_count(rs@, g.models@.take(i as int)),
        decreases g.models@.len() - i,
    {
        proof {
            assert(g.models@.take(i + 1).drop_last() =~= g.models@.take(i as int));
        }
        if is_hot(rs, g.models[i].0.as_str()) {
            hot = hot + 1;
        }
        i = i + 1;
    }
    proof {
        assert(g.models@.take(g.models@.len() as int) =~= g.models@);
    }
    let populated = rs.len() > 0;
    let degraded = g.keep_hot && hot == 0;
    let health = if !populated {
        owned("unknown")
    } else if degraded {
        owned("degraded")
    } else {
        owned("healthy")
    };
    GroupHealth {
        group_id: id,
        keep_hot: g.keep_hot,
        pinned: g.pinned,
        member_count: g.models.len(),
        hot_resident_count: hot,
        health,
    }
}

/// The configured runtime ids, in configuration order.
pub open spec fn runtime_ids(cfg: AnemoiConfig) -> Seq<Seq<char>> {
    cfg.runtimes@.map_values(|e: (crate::model::RuntimeId, crate::config::RuntimeConfig)| e.0.0@)
}

/// The configured group ids, in configuration order.
pub open spec fn group_ids(cfg: AnemoiConfig) -> Seq<Seq<char>> {
    cfg.residency_groups@.map_values(
        |e: (crate::model::ResidencyGroupId, crate::config::ResidencyGroupConfig)| e.0.0@,
    )
}

pub open spec fn text_order() -> spec_fn(Seq<char>, Seq<char>) -> bool {
    |a: Seq<char>, b: Seq<char>| text_le(a, b)
}

/// `r` is the status view of the configuration `cfg`, the reconciled cache
/// `rs` seen at `now`, the staging queue `intents`, the number of logged
/// decisions and whether live execution is enabled.
pub open spec fn status_of(
    r: OperatorStatus,
    cfg: AnemoiConfig,
    rs: Seq<ReconciledSnapshot>,
    intents: Seq<StagingIntent>,
    recent_decision_count: usize,
    live_execution_enabled: bool,
    now: i64,
) -> bool {
    &&& r.cache_populated == (rs.len() > 0)
    &&& is_stable_sort(r.runtimes@.map_values(|x: RuntimeStatus| x.runtime_id@), runtime_ids(cfg), text_order())
    &&& forall|k: int| 0 <= k < r.runtimes@.len() ==> runtime_row_ok(cfg, rs, now, #[trigger] r.runtimes@[k])
    &&& r.active_request_count == active_total(cfg, rs, cfg.runtimes@.len() as int)
    &&& is_stable_sort(r.residency_groups@.map_values(|x: GroupHealth| x.group_id@), group_ids(cfg), text_order())
    &&& forall|k: int| 0 <= k < r.residency_groups@.len() ==> group_row_ok(cfg, rs, #[trigger] r.residency_groups@[k])
    &&& r.policy_warnings@.map_values(|w: String| w@) == warnings_of(r.residency_groups@)
    &&& r.staging.total == intents.len()
    &&& r.staging.blocked == count_in(intents, StagingState::Blocked)
    &&& r.staging.pending == count_in(intents, StagingState::Pending)
    &&& r.staging.failed == count_in(intents, StagingState::Failed)
    &&& r.staging.completed == count_in(intents, StagingState::Completed)
    &&& r.recent_decision_count == recent_decision_count
    &&& r.live_execution_enabled == live_execution_enabled
}

/// Whether the active requests of the configured runtimes, each as last
/// reported, add up to a count that fits in `usize`.
pub fn active_total_fits(cfg: &AnemoiConfig, reconciled: &Vec<ReconciledSnapshot>) -> (r: bool)
    ensures
        r == (active_total(*cfg, reconciled@, cfg.runtimes@.len() as int) <= usize::MAX),
{
    let mut i: usize = 0;
    let mut total: usize = 0;
    while i < cfg.runtimes.len()
        invariant
            i <= cfg.runtimes@.len(),
            total == active_total(*cfg, reconciled@, i as int),
        decreases cfg.runtimes@.len() - i,
    {
        let n: usize = match find_latest(reconciled, cfg.runtimes[i].0.0.as_str()) {
            Some(j) => {
                proof {
                    lemma_latest_unique(reconciled@, cfg.runtimes@[i as int].0.0@, j as int);
                }
                reconciled[j].snapshot.active_requests.len()
            },
            None => 0,
        };
        match total.checked_add(n) {
            Some(t) => {
                total = t;
            },
            None => {
                proof {
                    lemma_active_total_mono(*cfg, reconciled@, i + 1, cfg.runtimes@.len() as int);
                }
                return false;
            },
        }
        i = i + 1;
    }
    true
}

/// The status view, or `None` when the active request count of the
/// configured runtimes would not fit in `usize`.
pub fn try_operator_status(
    cfg: &AnemoiConfig,
    reconciled: &Vec<ReconciledSnapshot>,
    intents: &[StagingIntent],
    recent_decision_count: usize,
    live_execution_enabled: bool,
    now: i64,
) -> (r: Option<OperatorStatus>)
    ensures
        r is Some == (active_total(*cfg, reconciled@, cfg.runtimes@.len() as int) <= usize::MAX),
        r matches Some(s) ==> status_of(s, *cfg, reconciled@, intents@, recent_decision_count, live_execution_enabled, now),
{
    if active_total_fits(cfg, reconciled) {
        Some(operator_status(cfg, reconciled, intents, recent_decision_count, live_execution_enabled, now))
    } else {
        None
    }
}

/// The status view built from the configuration, the reconciled cache
/// `reconciled` (as seen at `now`), the staging queue, the number of logged
/// decisions and whether live execution is enabled. Runtimes and groups are
/// listed by id; a runtime reported twice in the cache is shown by its last
/// report.
pub fn operator_status(
    cfg: &AnemoiConfig,
    reconciled: &Vec<ReconciledSnapshot>,
    intents: &[StagingIntent],
    recent_decision_count: usize,
    live_execution_enabled: bool,
    now: i64,
) -> (r: OperatorStatus)
    requires
        active_total(*cfg, reconciled@, cfg.runtimes@.len() as int) <= usize::MAX,
    ensures
        status_of(r, *cfg, reconciled@, intents@, recent_decision_count, live_execution_enabled, now),
{
    // runtimes, by id
    let mut keys: Vec<String> = Vec::new();
    let mut i: usize = 0;
    let mut total: usize = 0;
    while i < cfg.runtimes.len()
        invariant
            i <= cfg.runtimes@.len(),
            keys@.map_values(|s: String| s@) == runtime_ids(*cfg).take(i as int),
            total == active_total(*cfg, reconciled@, i as int),
            active_total(*cfg, reconciled@, cfg.runtimes@.len() as int) <= usize::MAX,
        decreases cfg.runtimes@.len() - i,
    {
        let key = cfg.runtimes[i].0.0.clone();
        proof {
            lemma_active_total_mono(*cfg, reconciled@, i + 1, cfg.runtimes@.len() as int);
        }
        match find_latest(reconciled, key.as_str()) {
            Some(j) => {
                proof {
                    lemma_latest_unique(reconciled@, key@, j as int);
                }
                total = total + reconciled[j].snapshot.active_requests.len();
            },
            None => {},
        }
        let ghost before = keys@;
        keys.push(key);
        proof {
            assert(runtime_ids(*cfg)[i as int] == cfg.runtimes@[i as int].0.0@);
            assert(keys@.map_values(|s: String| s@) =~= before.map_values(|s: String| s@).push(cfg.runtimes@[i as int].0.0@));
            assert(runtime_ids(*cfg).take(i + 1) =~= runtime_ids(*cfg).take(i as int).push(runtime_ids(*cfg)[i as int]));
        }
        i = i + 1;
    }
    proof {
        assert(runtime_ids(*cfg).take(cfg.runtimes@.len() as int) =~= runtime_ids(*cfg));
    }
    let ghost unsorted = keys@;
    let sorted = stable_sort(keys);
    proof {
        lemma_stable_sort_map(
            sorted@,
            unsorted,
            |a: String, b: String| String::spec_le(a, b),
            |s: String| s@,
            text_order(),
        );
    }
    let mut runtimes: Vec<RuntimeStatus> = Vec::new();
    let mut k: usize = 0;
    while k < sorted.len()
        invariant
            k <= sorted@.len(),
            runtimes@.len() == k,
            forall|j: int| 0 <= j < k ==> (#[trigger] runtimes@[j]).runtime_id == sorted@[j],
            forall|j: int| 0 <= j < k ==> runtime_row_ok(*cfg, reconciled@, now, #[trigger] runtimes@[j]),
        decreases sorted@.len() - k,
    {
        runtimes.push(runtime_row(cfg, sorted[k].clone(), reconciled, now));
        k = k + 1;
    }
    proof {
        assert(runtimes@.map_values(|x: RuntimeStatus| x.runtime_id@) =~= sorted@.map_values(|s: String| s@));
    }
    // residency groups, by id
    let mut gkeys: Vec<String> = Vec::new();
    let mut i: usize = 0;
    while i < cfg.residency_groups.len()
        invariant
            i <= cfg.residency_groups@.len(),
            gkeys@.map_values(|s: String| s@) == group_ids(*cfg).take(i as int),
        decreases cfg.residency_groups@.len() - i,
    {
        let ghost before = gkeys@;
        gkeys.push(cfg.residency_groups[i].0.0.clone());
        proof {
            assert(group_ids(*cfg)[i as int] == cfg.residency_groups@[i as int].0.0@);
            assert(gkeys@.map_values(|s: String| s@) =~= before.map_values(|s: String| s@).push(cfg.residency_groups@[i as int].0.0@));
            assert(group_ids(*cfg).take(i + 1) =~= group_ids(*cfg).take(i as int).push(group_ids(*cfg)[i as int]));
        }
        i = i + 1;
    }
    proof {
        assert(group_ids(*cfg).take(cfg.residency_groups@.len() as int) =~= group_ids(*cfg));
    }
    let ghost gunsorted = gkeys@;
    let gsorted = stable_sort(gkeys);
    proof {
        lemma_stable_sort_map(
            gsorted@,
            gunsorted,
            |a: String, b: String| String::spec_le(a, b),
            |s: String| s@,
            text_order(),
        );
        lemma_sorted_elements(
            gsorted@.map_values(|s: String| s@),
            group_ids(*cfg),
            text_order(),
        );
        assert forall|j: int| 0 <= j < gsorted@.len() implies group_ids(*cfg).contains((#[trigger] gsorted@[j])@) by {
            assert(gsorted@.map_values(|s: String| s@)[j] == gsorted@[j]@);
        }
    }
    let mut groups: Vec<GroupHealth> = Vec::new();
    let mut warnings: Vec<String> = Vec::new();
    let mut k: usize = 0;
    while k < gsorted.len()
        invariant
            k <= gsorted@.len(),
            groups@.len() == k,
            forall|j: int| 0 <= j < k ==> (#[trigger] groups@[j]).group_id == gsorted@[j],
            forall|j: int| 0 <= j < k ==> group_row_ok(*cfg, reconciled@, #[trigger] groups@[j]),
            forall|j: int| 0 <= j < gsorted@.len() ==> group_ids(*cfg).contains((#[trigger] gsorted@[j])@),
            warnings@.map_values(|w: String| w@) == warnings_of(groups@),
        decreases gsorted@.len() - k,
    {
        proof {
            assert(group_ids(*cfg).contains(gsorted@[k as int]@));
            let x = choose|x: int| 0 <= x < group_ids(*cfg).len() && group_ids(*cfg)[x] == gsorted@[k as int]@;
            assert(group_ids(*cfg)[x] == (crate::config::group_key())(cfg.residency_groups@[x]));
            assert(has_key(cfg.residency_groups@, crate::config::group_key(), gsorted@[k as int]@));
        }
        let row = group_row(cfg, gsorted[k].clone(), reconciled);
        let ghost before = groups@;
        proof {
            reveal_strlit("degraded");
        }
        if str_eq(row.health.as_str(), "degraded") {
            let mut w = owned("keep-hot group '");
            push_str(&mut w, row.group_id.as_str());
            push_str(&mut w, "' has no hot residents");
            warnings.push(w);
        }
        groups.push(row);
        proof {
            assert(groups@.drop_last() =~= before);
            assert(warnings@.map_values(|w: String| w@) =~= warnings_of(groups@));
        }
        k = k + 1;
    }
    proof {
        assert(groups@.map_values(|x: GroupHealth| x.group_id@) =~= gsorted@.map_values(|s: String| s@));
    }
    OperatorStatus {
        cache_populated: reconciled.len() > 0,
        runtimes,
        residency_groups: groups,
        active_request_count: total,
        staging: StagingSummary::from_intents(intents),
        recent_decision_count,
        policy_warnings: warnings,
        live_execution_enabled,
    }
}

proof fn lemma_active_total_mono(cfg: AnemoiConfig, rs: Seq<ReconciledSnapshot>, a: int, b: int)
    requires
        0 <= a <= b,
    ensures
        active_total(cfg, rs, a) <= active_total(cfg, rs, b),
    decreases b - a,
{
    if a < b {
        lemma_active_total_mono(cfg, rs, a, b - 1);
    }
}

} // verus!
