//! Background staging: intents to load a model in the background, the queue
//! that holds them, and its summary.
use vstd::prelude::*;
use crate::clock::{fresh_uuid, now_millis};
use crate::model::{ModelId, RuntimeId};

verus! {

/// Where a staging intent stands. `Failed` and `Completed` are final.
#[derive(Clone, Copy, Debug, PartialEq, Eq, Structural)]
pub enum StagingState {
    Blocked,
    Pending,
    Failed,
    Completed,
}

impl StagingState {
    /// Whether the intent is finished (failed or completed).
    pub fn is_terminal(&self) -> (r: bool)
        ensures
            r == (*self == StagingState::Failed || *self == StagingState::Completed),
    {
        match self {
            StagingState::Failed | StagingState::Completed => true,
            _ => false,
        }
    }
}

/// The wire name of a staging state.
pub open spec fn staging_state_wire(s: StagingState) -> Seq<char> {
    match s {
        StagingState::Blocked => "blocked"@,
        StagingState::Pending => "pending"@,
        StagingState::Failed => "failed"@,
        StagingState::Completed => "completed"@,
    }
}

/// The wire name of a staging state (`blocked`, `pending`, `failed`,
/// `completed`).
pub fn staging_state_str(s: StagingState) -> (r: &'static str)
    ensures
        r@ == staging_state_wire(s),
{
    proof {
        reveal_strlit("blocked");
        reveal_strlit("pending");
        reveal_strlit("failed");
        reveal_strlit("completed");
    }
    match s {
        StagingState::Blocked => "blocked",
        StagingState::Pending => "pending",
        StagingState::Failed => "failed",
        StagingState::Completed => "completed",
    }
}

/// An intent to load `background_model` on `target_runtime` in the
/// background, raised by decision `decision_id`. Ids are UUIDs held as
/// integers; `created_at` is in milliseconds since the Unix epoch.
#[derive(Debug, PartialEq, Eq)]
pub struct StagingIntent {
    pub id: u128,
    pub decision_id: u128,
    pub foreground_model: Option<ModelId>,
    pub background_model: ModelId,
    pub target_runtime: RuntimeId,
    pub reason: String,
    pub created_at: i64,
    pub state: StagingState,
    pub last_error: Option<String>,
}

fn clone_model(m: &Option<ModelId>) -> (r: Option<ModelId>)
    ensures
        r == *m,
{
    match m {
        Some(x) => Some(x.clone()),
        None => None,
    }
}

fn clone_text(m: &Option<String>) -> (r: Option<String>)
    ensures
        r == *m,
{
    match m {
        Some(x) => Some(x.clone()),
        None => None,
    }
}

impl Clone for StagingIntent {
    fn clone(&self) -> (r: Self)
        ensures
            r == *self,
    {
        StagingIntent {
            id: self.id,
            decision_id: self.decision_id,
            foreground_model: clone_model(&self.foreground_model),
            background_model: self.background_model.clone(),
            target_runtime: self.target_runtime.clone(),
            reason: self.reason.clone(),
            created_at: self.created_at,
            state: self.state,
            last_error: clone_text(&self.last_error),
        }
    }
}

impl StagingIntent {
    /// A new blocked intent with a fresh random id, created now.
    pub fn new(
        decision_id: u128,
        foreground_model: Option<ModelId>,
        background_model: ModelId,
        target_runtime: RuntimeId,
        reason: String,
    ) -> (r: Self)
        ensures
            r.decision_id == decision_id,
            r.foreground_model == foreground_model,
            r.background_model == background_model,
            r.target_runtime == target_runtime,
            r.reason == reason,
            r.state == StagingState::Blocked,
            r.last_error is None,
    {
        StagingIntent {
            id: fresh_uuid(),
            decision_id,
            foreground_model,
            background_model,
            target_runtime,
            reason,
            created_at: now_millis(),
            state: StagingState::Blocked,
            last_error: None,
        }
    }

    /// Moves the intent to pending.
    pub fn mark_pending(&mut self)
        ensures
            *final(self) == (StagingIntent { state: StagingState::Pending, ..*old(self) }),
    {
        self.state = StagingState::Pending;
    }

    /// Moves the intent to completed.
    pub fn mark_completed(&mut self)
        ensures
            *final(self) == (StagingIntent { state: StagingState::Completed, ..*old(self) }),
    {
        self.state = StagingState::Completed;
    }

    /// Moves the intent to failed, keeping `error`.
    pub fn mark_failed(&mut self, error: String)
        ensures
            *final(self) == (StagingIntent { state: StagingState::Failed, last_error: Some(error), ..*old(self) }),
    {
        self.state = StagingState::Failed;
        self.last_error = Some(error);
    }
}

/// `i` is the first index of an intent with id `id`.
pub open spec fn first_with_id(q: Seq<StagingIntent>, id: u128, i: int) -> bool {
    &&& 0 <= i < q.len()
    &&& q[i].id == id
    &&& forall|j: int| 0 <= j < i ==> (#[trigger] q[j]).id != id
}

/// Whether some intent of `q` has id `id`.
pub open spec fn has_intent(q: Seq<StagingIntent>, id: u128) -> bool {
    exists|i: int| 0 <= i < q.len() && (#[trigger] q[i]).id == id
}

/// `after` is `before` moved to `new_state`: a failed intent keeps `error`,
/// or an empty error text when none was given.
pub open spec fn intent_updated(before: StagingIntent, after: StagingIntent, new_state: StagingState, error: Option<String>) -> bool {
    match new_state {
        StagingState::Failed => {
            &&& after == (StagingIntent { state: StagingState::Failed, last_error: after.last_error, ..before })
            &&& match error {
                Some(e) => after.last_error == Some(e),
                None => after.last_error matches Some(x) && x@.len() == 0,
            }
        },
        _ => after == (StagingIntent { state: new_state, ..before }),
    }
}

/// The pending intents of `q`, in queue order.
pub open spec fn pending_of(q: Seq<StagingIntent>) -> Seq<StagingIntent> {
    q.filter(|it: StagingIntent| it.state == StagingState::Pending)
}

/// The queue of staging intents, in the order they were raised.
#[derive(Debug)]
pub struct StagingWorker {
    queue: Vec<StagingIntent>,
}

impl View for StagingWorker {
    type V = Seq<StagingIntent>;

    closed spec fn view(&self) -> Seq<StagingIntent> {
        self.queue@
    }
}

impl StagingWorker {
    /// An empty queue.
    pub fn new() -> (r: Self)
        ensures
            r@.len() == 0,
    {
        StagingWorker { queue: Vec::new() }
    }

    /// Appends `intent` to the queue.
    pub fn enqueue(&mut self, intent: StagingIntent)
        ensures
            final(self)@ == old(self)@.push(intent),
    {
        self.queue.push(intent);
    }

    /// Every intent, in queue order.
    pub fn get_all(&self) -> (r: Vec<StagingIntent>)
        ensures
            r@ == self@,
    {
        let mut out: Vec<StagingIntent> = Vec::new();
        let mut i: usize = 0;
        while i < self.queue.len()
            invariant
                i <= self.queue@.len(),
                out@ == self.queue@.take(i as int),
            decreases self.queue@.len() - i,
        {
            out.push(self.queue[i].clone());
            proof {
                assert(out@ =~= self.queue@.take(i + 1));
            }
            i = i + 1;
        }
        proof {
            assert(self.queue@.take(self.queue@.len() as int) =~= self.queue@);
        }
        out
    }

    /// The pending intents, in queue order.
    pub fn get_pending(&self) -> (r: Vec<StagingIntent>)
        ensures
            r@ == pending_of(self@),
    {
        let ghost q = self.queue@;
        let ghost p = |it: StagingIntent| it.state == StagingState::Pending;
        let mut out: Vec<StagingIntent> = Vec::new();
        let mut i: usize = 0;
        while i < self.queue.len()
            invariant
                i <= q.len(),
                q == self.queue@,
                p == (|it: StagingIntent| it.state == StagingState::Pending),
                out@ == q.take(i as int).filter(p),
            decreases q.len() - i,
        {
            proof {
                assert(q.take(i + 1).drop_last() =~= q.take(i as int));
                reveal(Seq::filter);
            }
            if self.queue[i].state == StagingState::Pending {
                out.push(self.queue[i].clone());
            }
            i = i + 1;
        }
        proof {
            assert(q.take(q.len() as int) =~= q);
        }
        out
    }

    /// Moves the first intent with id `intent_id` to `new_state`; a failed
    /// intent keeps `error` (empty when none is given). The queue is
    /// unchanged when no intent has that id.
    pub fn update_state(&mut self, intent_id: u128, new_state: StagingState, error: Option<String>)
        ensures
            final(self)@.len() == old(self)@.len(),
            has_intent(old(self)@, intent_id) ==> exists|i: int| {
                &&& #[trigger] first_with_id(old(self)@, intent_id, i)
                &&& intent_updated(old(self)@[i], final(self)@[i], new_state, error)
                &&& forall|j: int| 0 <= j < old(self)@.len() && j != i ==> final(self)@[j] == old(self)@[j]
            },
            !has_intent(old(self)@, intent_id) ==> final(self)@ == old(self)@,
    {
        let mut i: usize = 0;
        while i < self.queue.len()
            invariant
                i <= self.queue@.len(),
                self.queue@ == old(self)@,
                forall|j: int| 0 <= j < i ==> (#[trigger] self.queue@[j]).id != intent_id,
            decreases self.queue@.len() - i,
        {
            if self.queue[i].id == intent_id {
                let ghost before = self.queue@;
                let mut it = self.queue[i].clone();
                match new_state {
                    StagingState::Pending => it.mark_pending(),
                    StagingState::Completed => it.mark_completed(),
                    StagingState::Failed => {
                        let e = match error {
                            Some(e) => e,
                            None => String::new(),
                        };
                        it.mark_failed(e);
                    },
                    StagingState::Blocked => {
                        it.state = StagingState::Blocked;
                    },
                }
                self.queue.set(i, it);
                proof {
                    assert(first_with_id(before, intent_id, i as int));
                    assert(intent_updated(before[i as int], self.queue@[i as int], new_state, error));
                }
                return;
            }
            i = i + 1;
        }
    }

    /// Raises a new intent for decision `decision_id`, moves it straight to
    /// pending and queues it.
    pub fn unblock_and_queue(
        &mut self,
        decision_id: u128,
        foreground_model: Option<ModelId>,
        background_model: ModelId,
        target_runtime: RuntimeId,
        reason: String,
    )
        ensures
            final(self)@.len() == old(self)@.len() + 1,
            final(self)@.drop_last() == old(self)@,
            ({
                let it = final(self)@.last();
                &&& it.decision_id == decision_id
                &&& it.foreground_model == foreground_model
                &&& it.background_model == background_model
                &&& it.target_runtime == target_runtime
                &&& it.reason == reason
                &&& it.state == StagingState::Pending
                &&& it.last_error is None
            }),
    {
        let mut intent = StagingIntent::new(decision_id, foreground_model, background_model, target_runtime, reason);
        intent.mark_pending();
        self.enqueue(intent);
        proof {
            assert(self@.drop_last() =~= old(self)@);
        }
    }
}

impl Default for StagingWorker {
    fn default() -> (r: Self)
        ensures
            r@.len() == 0,
    {
        StagingWorker::new()
    }
}

/// How many intents of `q` are in state `s`.
pub open spec fn count_in(q: Seq<StagingIntent>, s: StagingState) -> nat
    decreases q.len(),
{
    if q.len() == 0 {
        0
    } else {
        count_in(q.drop_last(), s) + if q.last().state == s { 1nat } else { 0nat }
    }
}

/// Counts of the staging queue by state.
#[derive(Debug, Default, Clone, Copy, PartialEq, Eq, Structural)]
pub struct StagingSummary {
    pub total: usize,
    pub blocked: usize,
    pub pending: usize,
    pub failed: usize,
    pub completed: usize,
}

impl StagingSummary {
    /// Counts `intents` by state.
    pub fn from_intents(intents: &[StagingIntent]) -> (r: Self)
        ensures
            r.total == intents@.len(),
            r.blocked == count_in(intents@, StagingState::Blocked),
            r.pending == count_in(intents@, StagingState::Pending),
            r.failed == count_in(intents@, StagingState::Failed),
            r.completed == count_in(intents@, StagingState::Completed),
    {
        let mut summary = StagingSummary { total: intents.len(), blocked: 0, pending: 0, failed: 0, completed: 0 };
        let mut i: usize = 0;
        while i < intents.len()
            invariant
                i <= intents@.len(),
                summary.total == intents@.len(),
                summary.blocked == count_in(intents@.take(i as int), StagingState::Blocked),
                summary.pending == count_in(intents@.take(i as int), StagingState::Pending),
                summary.failed == count_in(intents@.take(i as int), StagingState::Failed),
                summary.completed == count_in(intents@.take(i as int), StagingState::Completed),
                summary.blocked + summary.pending + summary.failed + summary.completed == i,
            decreases intents@.len() - i,
        {
            proof {
                assert(intents@.take(i + 1).drop_last() =~= intents@.take(i as int));
            }
            match intents[i].state {
                StagingState::Blocked => summary.blocked = summary.blocked + 1,
                StagingState::Pending => summary.pending = summary.pending + 1,
                StagingState::Failed => summary.failed = summary.failed + 1,
                StagingState::Completed => summary.completed = summary.completed + 1,
            }
            i = i + 1;
        }
        proof {
            assert(intents@.take(intents@.len() as int) =~= intents@);
        }
        summary
    }
}

/// Every intent is in exactly one state: the four counts add up to the
/// length of the queue.
pub proof fn lemma_counts_partition(q: Seq<StagingIntent>)
    ensures
        count_in(q, StagingState::Blocked) + count_in(q, StagingState::Pending) + count_in(q, StagingState::Failed)
            + count_in(q, StagingState::Completed) == q.len(),
    decreases q.len(),
{
    if q.len() > 0 {
        lemma_counts_partition(q.drop_last());
    }
}

} // verus!
