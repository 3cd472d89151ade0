//! Decision telemetry: the in-memory decision log, the choice of log
//! backend, and the rows of resident transitions read back from the store.
use vstd::prelude::*;
use crate::keyed::{has_key, is_first_key, key_index, keys_distinct, lemma_first_key_unique, lemma_key_index};
use crate::model::Decision;
use crate::text::{owned, push_str, str_eq, substring};

verus! {

/// The id a decision is logged under.
pub open spec fn decision_key() -> spec_fn(Decision) -> u128 {
    |d: Decision| d.id
}

/// Decisions kept in memory, one per id, in the order each id was first
/// recorded.
#[derive(Debug)]
pub struct InMemoryDecisionLog {
    decisions: Vec<Decision>,
}

impl InMemoryDecisionLog {
    /// No id is logged twice.
    #[verifier::type_invariant]
    spec fn ids_distinct(self) -> bool {
        keys_distinct(self.decisions@, decision_key())
    }
}

impl View for InMemoryDecisionLog {
    type V = Seq<Decision>;

    closed spec fn view(&self) -> Seq<Decision> {
        self.decisions@
    }
}

/// Where a decision with id `id` is written in `log`: over the entry with
/// that id, or after the last entry.
pub open spec fn slot_of(log: Seq<Decision>, id: u128) -> int {
    if has_key(log, decision_key(), id) {
        key_index(log, decision_key(), id)
    } else {
        log.len() as int
    }
}

/// `after` is `before` with `d` recorded: the entry with `d`'s id is
/// replaced by `d` where it stands, or `d` is appended.
pub open spec fn recorded(before: Seq<Decision>, after: Seq<Decision>, d: Decision) -> bool {
    let i = slot_of(before, d.id);
    &&& after.len() == if has_key(before, decision_key(), d.id) { before.len() } else { before.len() + 1 }
    &&& after[i].same(d)
    &&& forall|j: int| 0 <= j < after.len() && j != i ==> after[j] == before[j]
}

/// The logged decision with id `id` (meaningful when `logged(log, id)`).
pub open spec fn logged_decision(log: Seq<Decision>, id: u128) -> Decision {
    log[key_index(log, decision_key(), id)]
}

pub open spec fn logged(log: Seq<Decision>, id: u128) -> bool {
    has_key(log, decision_key(), id)
}

fn clone_decision(d: &Decision) -> (r: Decision)
    ensures
        r.same(*d),
{
    d.clone()
}

impl InMemoryDecisionLog {
    /// An empty log.
    pub fn new() -> (r: Self)
        ensures
            r@.len() == 0,
    {
        InMemoryDecisionLog { decisions: Vec::new() }
    }

    fn find(&self, id: u128) -> (r: Option<usize>)
        ensures
            match r {
                Some(i) => is_first_key(self@, decision_key(), id, i as int)
                    && key_index(self@, decision_key(), id) == i && logged(self@, id),
                None => !logged(self@, id),
            },
    {
        let mut i: usize = 0;
        while i < self.decisions.len()
            invariant
                i <= self.decisions@.len(),
                forall|j: int| 0 <= j < i ==> (decision_key())(#[trigger] self.decisions@[j]) != id,
            decreases self.decisions@.len() - i,
        {
            if self.decisions[i].id == id {
                proof {
                    assert(is_first_key(self@, decision_key(), id, i as int));
                    lemma_first_key_unique(self@, decision_key(), id, i as int);
                }
                return Some(i);
            }
            i = i + 1;
        }
        None
    }

    /// Records `decision`, replacing an earlier decision with the same id
    /// where it stands.
    pub fn record_decision(&mut self, decision: &Decision)
        ensures
            recorded(old(self)@, final(self)@, *decision),
            keys_distinct(final(self)@, decision_key()),
    {
        proof {
            use_type_invariant(&*self);
        }
        let ghost before = self@;
        let copy = clone_decision(decision);
        let found = self.find(decision.id);
        let mut decisions: Vec<Decision> = Vec::new();
        std::mem::swap(&mut decisions, &mut self.decisions);
        match found {
            Some(i) => {
                decisions.set(i, copy);
                proof {
                    assert forall|a: int, b: int| 0 <= a < b < decisions@.len() implies (decision_key())(#[trigger] decisions@[a]) != (decision_key())(#[trigger] decisions@[b]) by {
                        assert((decision_key())(decisions@[a]) == (decision_key())(before[a]));
                        assert((decision_key())(decisions@[b]) == (decision_key())(before[b]));
                    }
                }
            },
            None => {
                decisions.push(copy);
                proof {
                    assert forall|a: int, b: int| 0 <= a < b < decisions@.len() implies (decision_key())(#[trigger] decisions@[a]) != (decision_key())(#[trigger] decisions@[b]) by {
                        assert(decisions@[a] == before[a]);
                        if b < before.len() {
                            assert(decisions@[b] == before[b]);
                        }
                    }
                }
            },
        }
        self.decisions = decisions;
    }

    /// The decision logged under `id`, if any.
    pub fn get_decision(&self, id: u128) -> (r: Option<Decision>)
        ensures
            r is Some == logged(self@, id),
            r matches Some(d) ==> d.same(logged_decision(self@, id)),
    {
        match self.find(id) {
            Some(i) => Some(clone_decision(&self.decisions[i])),
            None => None,
        }
    }

    /// Every logged decision, in the order their ids were first recorded.
    pub fn list_decisions(&self) -> (r: Vec<Decision>)
        ensures
            r@.len() == self@.len(),
            forall|i: int| 0 <= i < r@.len() ==> (#[trigger] r@[i]).same(self@[i]),
    {
        let mut out: Vec<Decision> = Vec::new();
        let mut i: usize = 0;
        while i < self.decisions.len()
            invariant
                i <= self.decisions@.len(),
                out@.len() == i,
                forall|j: int| 0 <= j < i ==> (#[trigger] out@[j]).same(self@[j]),
            decreases self.decisions@.len() - i,
        {
            out.push(clone_decision(&self.decisions[i]));
            i = i + 1;
        }
        out
    }
}

impl Default for InMemoryDecisionLog {
    fn default() -> (r: Self)
        ensures
            r@.len() == 0,
    {
        InMemoryDecisionLog::new()
    }
}

/// What a read after a write gives back: once `d` is recorded, looking up
/// its id finds `d`.
pub proof fn lemma_read_after_record(before: Seq<Decision>, after: Seq<Decision>, d: Decision)
    requires
        recorded(before, after, d),
    ensures
        logged(after, d.id),
        logged_decision(after, d.id).same(d),
{
    let i = slot_of(before, d.id);
    if has_key(before, decision_key(), d.id) {
        lemma_key_index(before, decision_key(), d.id);
        assert forall|j: int| 0 <= j < i implies (decision_key())(#[trigger] after[j]) != d.id by {
            assert(after[j] == before[j]);
        }
    } else {
        assert forall|j: int| 0 <= j < i implies (decision_key())(#[trigger] after[j]) != d.id by {
            assert(after[j] == before[j]);
        }
    }
    assert(after[i].id == d.id);
    assert(is_first_key(after, decision_key(), d.id, i));
    lemma_first_key_unique(after, decision_key(), d.id, i);
}

/// Recording a decision leaves every other id's entry as it was.
pub proof fn lemma_record_keeps_others(before: Seq<Decision>, after: Seq<Decision>, d: Decision, id: u128)
    requires
        recorded(before, after, d),
        id != d.id,
    ensures
        logged(after, id) == logged(before, id),
        logged(before, id) ==> logged_decision(after, id) == logged_decision(before, id),
{
    let i = slot_of(before, d.id);
    if has_key(before, decision_key(), d.id) {
        lemma_key_index(before, decision_key(), d.id);
    }
    if logged(before, id) {
        lemma_key_index(before, decision_key(), id);
        let k = key_index(before, decision_key(), id);
        assert(k != i);
        assert forall|j: int| 0 <= j < k implies (decision_key())(#[trigger] after[j]) != id by {
            if j != i {
                assert(after[j] == before[j]);
            }
        }
        assert(after[k] == before[k]);
        assert(is_first_key(after, decision_key(), id, k));
        lemma_first_key_unique(after, decision_key(), id, k);
    }
    if logged(after, id) {
        lemma_key_index(after, decision_key(), id);
        let k = key_index(after, decision_key(), id);
        assert(k != i);
        assert(after[k] == before[k]);
    }
}

/// The file path a `sqlite://` URL names: the text after the scheme, with
/// the slash before a Windows drive letter (`/C:`) dropped; `None` for any
/// other scheme.
pub open spec fn sqlite_path(url: Seq<char>) -> Option<Seq<char>> {
    if url.len() >= 9 && url.take(9) == "sqlite://"@ {
        let rest = url.skip(9);
        if rest.len() >= 3 && rest[0] == '/' && is_ascii_alpha(rest[1]) && rest[2] == ':' {
            Some(rest.skip(1))
        } else {
            Some(rest)
        }
    } else {
        None
    }
}

pub open spec fn is_ascii_alpha(c: char) -> bool {
    ('a' <= c && c <= 'z') || ('A' <= c && c <= 'Z')
}

/// Parses a `sqlite://` URL into a file path: `sqlite:///var/lib/x.db`
/// gives `/var/lib/x.db`, `sqlite:///C:/x.db` gives `C:/x.db`.
pub fn sqlite_path_from_url(url: &str) -> (r: Option<String>)
    ensures
        r is Some == sqlite_path(url@) is Some,
        r matches Some(p) ==> Some(p@) == sqlite_path(url@),
{
    proof {
        reveal_strlit("sqlite://");
    }
    let n = url.unicode_len();
    if n < 9 || !str_eq(url.substring_char(0, 9), "sqlite://") {
        return None;
    }
    let rest = url.substring_char(9, n);
    let m = n - 9;
    proof {
        assert(rest@ =~= url@.skip(9));
    }
    if m >= 3 {
        let c0 = rest.get_char(0);
        let c1 = rest.get_char(1);
        let c2 = rest.get_char(2);
        if c0 == '/' && (('a' <= c1 && c1 <= 'z') || ('A' <= c1 && c1 <= 'Z')) && c2 == ':' {
            return Some(substring(rest, 1, m));
        }
    }
    Some(owned(rest))
}

/// Which decision log backs the daemon and the CLI.
#[derive(Debug, PartialEq, Eq)]
pub enum DecisionLogChoice {
    /// The durable SQLite store at this path.
    Sqlite(String),
    /// An in-memory log mirrored to this JSON-lines file.
    Jsonl(String),
    InMemory,
}

/// Chooses the decision log: a database URL selects SQLite (refused with
/// an error message unless it is a `sqlite://` URL); otherwise a JSON-lines
/// path selects the file-backed log; otherwise the log is in memory.
pub fn decision_log_choice(database_url: Option<&str>, jsonl_path: Option<String>) -> (r: Result<DecisionLogChoice, String>)
    ensures
        database_url matches Some(u) ==> match sqlite_path(u@) {
            Some(p) => r matches Ok(DecisionLogChoice::Sqlite(x)) && x@ == p,
            None => r matches Err(e) && e@ == "unsupported ANEMOI_DATABASE_URL: "@ + u@,
        },
        database_url is None ==> match jsonl_path {
            Some(p) => r == Ok::<DecisionLogChoice, String>(DecisionLogChoice::Jsonl(p)),
            None => r == Ok::<DecisionLogChoice, String>(DecisionLogChoice::InMemory),
        },
{
    match database_url {
        Some(u) => match sqlite_path_from_url(u) {
            Some(p) => Ok(DecisionLogChoice::Sqlite(p)),
            None => {
                let mut e = owned("unsupported ANEMOI_DATABASE_URL: ");
                push_str(&mut e, u);
                Err(e)
            },
        },
        None => match jsonl_path {
            Some(p) => Ok(DecisionLogChoice::Jsonl(p)),
            None => Ok(DecisionLogChoice::InMemory),
        },
    }
}

/// A resident transition read back from the event store; states are the
/// wire names of residency states.
#[derive(Debug, PartialEq, Eq)]
pub struct ResidentEvent {
    pub model_id: String,
    pub runtime_id: String,
    pub from_state: String,
    pub to_state: String,
    pub observed_at: String,
    pub evidence_source: String,
    pub decision_id: Option<String>,
    pub note: Option<String>,
}

} // verus!
