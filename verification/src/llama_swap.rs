//! llama-swap residency evidence: the model states of its `/api/events` SSE
//! stream, the decoder for that stream, and model id normalization.
use vstd::prelude::*;
use vstd::utf8::{decode_utf8, valid_utf8};
use crate::keyed::{has_key, is_first_key, keys_distinct, lemma_first_key_unique, lemma_upsert_all_distinct, upsert, upsert_all};
use crate::model::{ModelId, ModelResident, ResidencyState};
use crate::sorting::{is_sort_witness, is_stable_sort, lemma_stable_sort_map, stable_sort, SortKey};
use crate::text::{chars_of, lemma_text_le_reflexive, lemma_text_le_total, lemma_text_le_transitive, push_str, str_eq, str_le, substring, text_le};

verus! {

/// Process state of a model as reported by llama-swap. The lifecycle is
/// `stopped` → `starting` → `ready` → `stopping` → `shutdown`.
#[derive(Clone, Copy, Debug, PartialEq, Eq, Structural)]
pub enum LlamaSwapModelState {
    Stopped,
    Starting,
    Ready,
    Stopping,
    Shutdown,
}

pub open spec fn state_from_wire(raw: Seq<char>) -> Option<LlamaSwapModelState> {
    if raw == "stopped"@ {
        Some(LlamaSwapModelState::Stopped)
    } else if raw == "starting"@ {
        Some(LlamaSwapModelState::Starting)
    } else if raw == "ready"@ {
        Some(LlamaSwapModelState::Ready)
    } else if raw == "stopping"@ {
        Some(LlamaSwapModelState::Stopping)
    } else if raw == "shutdown"@ {
        Some(LlamaSwapModelState::Shutdown)
    } else {
        None
    }
}

pub open spec fn state_residency(s: LlamaSwapModelState) -> Option<ResidencyState> {
    match s {
        LlamaSwapModelState::Stopped | LlamaSwapModelState::Shutdown => None,
        LlamaSwapModelState::Starting => Some(ResidencyState::Loading),
        LlamaSwapModelState::Ready => Some(ResidencyState::HotGpu),
        LlamaSwapModelState::Stopping => Some(ResidencyState::Draining),
    }
}

impl LlamaSwapModelState {
    /// The state named by a wire string, or `None` for an unknown string.
    pub fn from_wire(raw: &str) -> (r: Option<Self>)
        ensures
            r == state_from_wire(raw@),
    {
        if str_eq(raw, "stopped") {
            Some(LlamaSwapModelState::Stopped)
        } else if str_eq(raw, "starting") {
            Some(LlamaSwapModelState::Starting)
        } else if str_eq(raw, "ready") {
            Some(LlamaSwapModelState::Ready)
        } else if str_eq(raw, "stopping") {
            Some(LlamaSwapModelState::Stopping)
        } else if str_eq(raw, "shutdown") {
            Some(LlamaSwapModelState::Shutdown)
        } else {
            None
        }
    }

    /// The residency to report for a model in this state, or `None` when it
    /// is not loaded: `ready` is hot on GPU, `starting` loading, `stopping`
    /// draining.
    pub fn residency(self) -> (r: Option<ResidencyState>)
        ensures
            r == state_residency(self),
    {
        match self {
            LlamaSwapModelState::Stopped | LlamaSwapModelState::Shutdown => None,
            LlamaSwapModelState::Starting => Some(ResidencyState::Loading),
            LlamaSwapModelState::Ready => Some(ResidencyState::HotGpu),
            LlamaSwapModelState::Stopping => Some(ResidencyState::Draining),
        }
    }
}

/// What `serde_json::from_str` makes of `text` read as a JSON object: for
/// each member in key order, its key and its value when that is a string.
/// `None` when `text` is not a JSON object.
pub uninterp spec fn json_object_fields(text: Seq<char>) -> Option<Seq<(Seq<char>, Option<Seq<char>>)>>;

/// What `serde_json::from_str` makes of `text` read as a JSON array of
/// objects: for each element, its members as `json_object_fields` lists them.
/// `None` when `text` is not a JSON array whose elements are all objects.
pub uninterp spec fn json_array_object_fields(text: Seq<char>) -> Option<Seq<Seq<(Seq<char>, Option<Seq<char>>)>>>;

pub open spec fn fields_view(f: Vec<(String, Option<String>)>) -> Seq<(Seq<char>, Option<Seq<char>>)> {
    f@.map_values(|m: (String, Option<String>)| (m.0@, match m.1 {
        Some(s) => Some(s@),
        None => None,
    }))
}

/// Parses `text` with `serde_json::from_str` into a map from member names to
/// JSON values and lists each member with its value when it is a string. The
/// result is named by `json_object_fields`; how serde_json parses is not
/// restated here. Of duplicate member names serde_json keeps the last.
#[verifier::external_body]
fn parse_json_object(text: &str) -> (r: Option<Vec<(String, Option<String>)>>)
    ensures
        match r {
            Some(f) => json_object_fields(text@) == Some(fields_view(f)),
            None => json_object_fields(text@) is None,
        },
{
    serde_json::from_str::<std::collections::BTreeMap<String, serde_json::Value>>(text)
        .ok()
        .map(|m| m.into_iter().map(|(k, v)| (k, v.as_str().map(|s| s.to_string()))).collect())
}

/// Parses `text` with `serde_json::from_str` into a list of maps from member
/// names to JSON values, each member listed with its value when it is a
/// string. The result is named by `json_array_object_fields`.
#[verifier::external_body]
fn parse_json_object_array(text: &str) -> (r: Option<Vec<Vec<(String, Option<String>)>>>)
    ensures
        match r {
            Some(a) => json_array_object_fields(text@) == Some(a@.map_values(|f: Vec<(String, Option<String>)>| fields_view(f))),
            None => json_array_object_fields(text@) is None,
        },
{
    serde_json::from_str::<Vec<std::collections::BTreeMap<String, serde_json::Value>>>(text)
        .ok()
        .map(|a| a.into_iter().map(|m| m.into_iter().map(|(k, v)| (k, v.as_str().map(|s| s.to_string()))).collect()).collect())
}

/// The string value of the first member named `name`; `None` when there is
/// no such member or its value is not a string.
pub open spec fn string_field(fields: Seq<(Seq<char>, Option<Seq<char>>)>, name: Seq<char>) -> Option<Seq<char>>
    decreases fields.len(),
{
    if fields.len() == 0 {
        None
    } else if fields[0].0 == name {
        fields[0].1
    } else {
        string_field(fields.drop_first(), name)
    }
}

fn find_string_field(fields: &Vec<(String, Option<String>)>, name: &str) -> (r: Option<String>)
    ensures
        match r {
            Some(s) => string_field(fields_view(*fields), name@) == Some(s@),
            None => string_field(fields_view(*fields), name@) is None,
        },
{
    let ghost fv = fields_view(*fields);
    let mut i: usize = 0;
    assert(fv.skip(0) =~= fv);
    while i < fields.len()
        invariant
            fv == fields_view(*fields),
            i <= fields@.len(),
            string_field(fv, name@) == string_field(fv.skip(i as int), name@),
        decreases fields@.len() - i,
    {
        assert(fv[i as int].0 == fields@[i as int].0@);
        assert(fv.skip(i as int)[0] == fv[i as int]);
        if str_eq(fields[i].0.as_str(), name) {
            proof {
                assert(fv[i as int].1 == match fields@[i as int].1 {
                    Some(s) => Some(s@),
                    None => None::<Seq<char>>,
                });
            }
            return match &fields[i].1 {
                Some(s) => Some(s.clone()),
                None => None,
            };
        }
        assert(fv.skip(i as int).drop_first() =~= fv.skip(i + 1));
        i = i + 1;
    }
    None
}

/// The model states of entries `{id, state}`, entries with an unknown state
/// dropped; `None` when some entry lacks a string `id` or `state`.
pub open spec fn entry_states(entries: Seq<Seq<(Seq<char>, Option<Seq<char>>)>>, n: int) -> Option<Seq<(Seq<char>, LlamaSwapModelState)>>
    decreases n,
{
    if n <= 0 {
        Some(seq![])
    } else {
        match entry_states(entries, n - 1) {
            None => None,
            Some(prev) => match (string_field(entries[n - 1], "id"@), string_field(entries[n - 1], "state"@)) {
                (Some(id), Some(state)) => match state_from_wire(state) {
                    Some(s) => Some(prev.push((id, s))),
                    None => Some(prev),
                },
                _ => None,
            },
        }
    }
}

/// The model states carried by one SSE `data:` payload: a `modelStatus`
/// frame whose `data` member is itself the JSON text of the entries. `None`
/// for any other frame type or a malformed payload.
pub open spec fn status_payload(payload: Seq<char>) -> Option<Seq<(Seq<char>, LlamaSwapModelState)>> {
    match json_object_fields(payload) {
        None => None,
        Some(frame) => match status_frame_data(frame) {
            None => None,
            Some(data) => match json_array_object_fields(data) {
                None => None,
                Some(entries) => entry_states(entries, entries.len() as int),
            },
        },
    }
}

/// The `data` text of a frame whose members are `frame`: `Some` when its
/// `type` is the string `modelStatus` and its `data` is a string.
pub open spec fn status_frame_data(frame: Seq<(Seq<char>, Option<Seq<char>>)>) -> Option<Seq<char>> {
    match (string_field(frame, "type"@), string_field(frame, "data"@)) {
        (Some(kind), Some(data)) => if kind == "modelStatus"@ {
            Some(data)
        } else {
            None
        },
        _ => None,
    }
}

/// The `data` text of a parsed frame (each member with its value when that
/// is a string), when the frame is a `modelStatus` frame.
pub fn status_frame_data_of(frame: &Vec<(String, Option<String>)>) -> (r: Option<String>)
    ensures
        match r {
            Some(d) => status_frame_data(fields_view(*frame)) == Some(d@),
            None => status_frame_data(fields_view(*frame)) is None,
        },
{
    proof {
        reveal_strlit("modelStatus");
    }
    let kind = find_string_field(frame, "type");
    let data = find_string_field(frame, "data");
    match (kind, data) {
        (Some(k), Some(d)) => if str_eq(k.as_str(), "modelStatus") {
            Some(d)
        } else {
            None
        },
        _ => None,
    }
}

pub open spec fn states_view(v: Vec<(String, LlamaSwapModelState)>) -> Seq<(Seq<char>, LlamaSwapModelState)> {
    v@.map_values(|e: (String, LlamaSwapModelState)| (e.0@, e.1))
}

/// Parses one SSE event's `data:` payload into the model states of a
/// `modelStatus` frame.
pub fn parse_model_status_payload(payload: &str) -> (r: Option<Vec<(String, LlamaSwapModelState)>>)
    ensures
        match r {
            Some(v) => status_payload(payload@) == Some(states_view(v)),
            None => status_payload(payload@) is None,
        },
{
    let frame = match parse_json_object(payload) {
        Some(f) => f,
        None => return None,
    };
    let data = match status_frame_data_of(&frame) {
        Some(d) => d,
        None => return None,
    };
    let entries = match parse_json_object_array(data.as_str()) {
        Some(e) => e,
        None => return None,
    };
    entries_states(&entries)
}

/// The model states of parsed entries (each member with its value when that
/// is a string): every entry must have a string `id` and `state`; entries
/// whose state is not a known one are dropped.
pub fn entries_states(entries: &Vec<Vec<(String, Option<String>)>>) -> (r: Option<Vec<(String, LlamaSwapModelState)>>)
    ensures
        match r {
            Some(v) => entry_states(entries@.map_values(|f: Vec<(String, Option<String>)>| fields_view(f)), entries@.len() as int) == Some(states_view(v)),
            None => entry_states(entries@.map_values(|f: Vec<(String, Option<String>)>| fields_view(f)), entries@.len() as int) is None,
        },
{
    let ghost ev = entries@.map_values(|f: Vec<(String, Option<String>)>| fields_view(f));
    let mut out: Vec<(String, LlamaSwapModelState)> = Vec::new();
    let mut i: usize = 0;
    while i < entries.len()
        invariant
            ev == entries@.map_values(|f: Vec<(String, Option<String>)>| fields_view(f)),
            i <= entries@.len(),
            entry_states(ev, i as int) == Some(states_view(out)),
        decreases entries@.len() - i,
    {
        assert(ev[i as int] == fields_view(entries@[i as int]));
        let id = find_string_field(&entries[i], "id");
        let state = find_string_field(&entries[i], "state");
        match (id, state) {
            (Some(id), Some(state)) => {
                match LlamaSwapModelState::from_wire(state.as_str()) {
                    Some(s) => {
                        let ghost before = out;
                        out.push((id, s));
                        assert(states_view(out) =~= states_view(before).push((id@, s)));
                    },
                    None => {},
                }
            },
            _ => {
                proof {
                    lemma_entry_states_none(ev, i as int + 1, entries@.len() as int);
                }
                return None;
            },
        }
        i = i + 1;
    }
    Some(out)
}

proof fn lemma_entry_states_none(ev: Seq<Seq<(Seq<char>, Option<Seq<char>>)>>, i: int, n: int)
    requires
        0 < i <= n,
        entry_states(ev, i) is None,
    ensures
        entry_states(ev, n) is None,
    decreases n - i,
{
    if i < n {
        lemma_entry_states_none(ev, i + 1, n);
    }
}

pub open spec fn strip_cr(line: Seq<char>) -> Seq<char> {
    if line.len() > 0 && line.last() == '\r' {
        line.drop_last()
    } else {
        line
    }
}

/// Lines ended so far within the first `n` characters, and the line being read.
pub open spec fn lines_state(s: Seq<char>, n: int) -> (Seq<Seq<char>>, Seq<char>)
    decreases n,
{
    if n <= 0 {
        (seq![], seq![])
    } else {
        let p = lines_state(s, n - 1);
        if s[n - 1] == '\n' {
            (p.0.push(strip_cr(p.1)), seq![])
        } else {
            (p.0, p.1.push(s[n - 1]))
        }
    }
}

/// The lines of `s` as `str::lines` yields them: split at `\n`, a `\r`
/// just before the `\n` dropped, no empty line after a final `\n`.
pub open spec fn lines_of(s: Seq<char>) -> Seq<Seq<char>> {
    let st = lines_state(s, s.len() as int);
    if st.1.len() > 0 {
        st.0.push(st.1)
    } else {
        st.0
    }
}

/// The payload of a `data:` line (one leading space dropped), or `None` for
/// any other line.
pub open spec fn data_payload(line: Seq<char>) -> Option<Seq<char>> {
    if line.len() >= 5 && line.take(5) == "data:"@ {
        let rest = line.skip(5);
        if rest.len() > 0 && rest[0] == ' ' {
            Some(rest.skip(1))
        } else {
            Some(rest)
        }
    } else {
        None
    }
}

/// The payloads of the `data:` lines among the first `n` lines.
pub open spec fn data_lines(lines: Seq<Seq<char>>, n: int) -> Seq<Seq<char>>
    decreases n,
{
    if n <= 0 {
        seq![]
    } else {
        match data_payload(lines[n - 1]) {
            Some(p) => data_lines(lines, n - 1).push(p),
            None => data_lines(lines, n - 1),
        }
    }
}

/// Joins pieces with `\n` between them.
pub open spec fn join_lines(pieces: Seq<Seq<char>>) -> Seq<char>
    decreases pieces.len(),
{
    if pieces.len() == 0 {
        seq![]
    } else if pieces.len() == 1 {
        pieces[0]
    } else {
        join_lines(pieces.drop_last()) + seq!['\n'] + pieces.last()
    }
}

/// The data of one SSE event: its `data:` lines joined with newlines, or
/// `None` when it has none.
pub open spec fn event_data(event: Seq<char>) -> Option<Seq<char>> {
    let lines = lines_of(event);
    let d = data_lines(lines, lines.len() as int);
    if d.len() == 0 {
        None
    } else {
        Some(join_lines(d))
    }
}


proof fn lemma_data_lines_prefix(a: Seq<Seq<char>>, b: Seq<Seq<char>>, n: int)
    requires
        0 <= n <= a.len(),
        n <= b.len(),
        forall|i: int| 0 <= i < n ==> a[i] == b[i],
    ensures
        data_lines(a, n) == data_lines(b, n),
    decreases n,
{
    if n > 0 {
        lemma_data_lines_prefix(a, b, n - 1);
    }
}

/// Appends the payload of line `chars[start..end]` when it is a `data:` line.
fn take_data_line(
    event: &str,
    chars: &Vec<char>,
    start: usize,
    end: usize,
    out: &mut String,
    count: &mut usize,
)
    requires
        chars@ == event@,
        start <= end <= chars@.len(),
        *old(count) < usize::MAX,
        *old(count) == 0 ==> old(out)@.len() == 0,
    ensures
        ({
            let line = event@.subrange(start as int, end as int);
            match data_payload(line) {
                Some(p) => {
                    &&& *final(count) == *old(count) + 1
                    &&& final(out)@ == if *old(count) == 0 { p } else { old(out)@ + seq!['\n'] + p }
                },
                None => *final(count) == *old(count) && final(out)@ == old(out)@,
            }
        }),
{
    let ghost line = event@.subrange(start as int, end as int);
    proof {
        reveal_strlit("data:");
    }
    if end - start >= 5 && chars[start] == 'd' && chars[start + 1] == 'a' && chars[start + 2] == 't'
        && chars[start + 3] == 'a' && chars[start + 4] == ':' {
        assert(line.take(5) =~= "data:"@);
        let mut p0 = start + 5;
        if p0 < end && chars[p0] == ' ' {
            p0 = p0 + 1;
        }
        let piece = substring(event, p0, end);
        proof {
            let rest = line.skip(5);
            if rest.len() > 0 && rest[0] == ' ' {
                assert(piece@ =~= rest.skip(1));
            } else {
                assert(piece@ =~= rest);
            }
        }
        if *count > 0 {
            push_str(out, "\n");
            proof {
                reveal_strlit("\n");
                assert("\n"@ =~= seq!['\n']);
            }
        }
        push_str(out, piece.as_str());
        *count = *count + 1;
        proof {
            if *old(count) == 0 {
                assert(out@ =~= old(out)@ + piece@);
            }
        }
    } else {
        proof {
            if line.len() >= 5 && line.take(5) == "data:"@ {
                assert(line[0] == 'd' && line[1] == 'a' && line[2] == 't' && line[3] == 'a' && line[4] == ':') by {
                    assert(line.take(5)[0] == line[0]);
                    assert(line.take(5)[1] == line[1]);
                    assert(line.take(5)[2] == line[2]);
                    assert(line.take(5)[3] == line[3]);
                    assert(line.take(5)[4] == line[4]);
                }
            }
        }
    }
}

/// Joins the `data:` lines of one SSE event into a single payload (lines
/// joined with newlines); `None` when the event has no data lines.
pub fn sse_data_field(event: &str) -> (r: Option<String>)
    ensures
        match r {
            Some(s) => event_data(event@) == Some(s@),
            None => event_data(event@) is None,
        },
{
    let chars = chars_of(event);
    let ghost s = event@;
    let mut out = String::new();
    let mut count: usize = 0;
    let mut line_start: usize = 0;
    let mut i: usize = 0;
    while i < chars.len()
        invariant
            chars@ == s,
            s == event@,
            line_start <= i <= s.len(),
            lines_state(s, i as int).1 == s.subrange(line_start as int, i as int),
            count <= line_start,
            count == 0 ==> out@.len() == 0,
            count == data_lines(lines_state(s, i as int).0, lines_state(s, i as int).0.len() as int).len(),
            count > 0 ==> out@ == join_lines(data_lines(lines_state(s, i as int).0, lines_state(s, i as int).0.len() as int)),
        decreases s.len() - i,
    {
        let ghost st = lines_state(s, i as int);
        let ghost d = data_lines(st.0, st.0.len() as int);
        if chars[i] == '\n' {
            let end = if i > line_start && chars[i - 1] == '\r' { i - 1 } else { i };
            let ghost line = s.subrange(line_start as int, end as int);
            proof {
                assert(strip_cr(st.1) =~= line);
            }
            take_data_line(event, &chars, line_start, end, &mut out, &mut count);
            proof {
                let st2 = lines_state(s, i + 1);
                assert(st2.0 == st.0.push(line));
                lemma_data_lines_prefix(st2.0, st.0, st.0.len() as int);
                let d2 = data_lines(st2.0, st2.0.len() as int);
                match data_payload(line) {
                    Some(p) => {
                        assert(d2 == d.push(p));
                        if d.len() > 0 {
                            assert(d2.drop_last() =~= d);
                        }
                    },
                    None => {
                        assert(d2 == d);
                    },
                }
                assert(st2.1 =~= s.subrange(i + 1, i + 1));
            }
            line_start = i + 1;
        } else {
            proof {
                assert(lines_state(s, i + 1).1 =~= s.subrange(line_start as int, i + 1));
            }
        }
        i = i + 1;
    }
    let ghost st = lines_state(s, s.len() as int);
    if line_start < chars.len() {
        take_data_line(event, &chars, line_start, chars.len(), &mut out, &mut count);
        proof {
            let lines = lines_of(s);
            assert(lines == st.0.push(st.1));
            lemma_data_lines_prefix(lines, st.0, st.0.len() as int);
            let d = data_lines(st.0, st.0.len() as int);
            match data_payload(st.1) {
                Some(p) => {
                    if d.len() > 0 {
                        assert(d.push(p).drop_last() =~= d);
                    }
                },
                None => {},
            }
        }
    }
    if count == 0 {
        None
    } else {
        Some(out)
    }
}

/// `needle` occurs in `haystack` at `i`.
pub open spec fn occurs_at(haystack: Seq<u8>, needle: Seq<u8>, i: int) -> bool {
    0 <= i && i + needle.len() <= haystack.len() && haystack.subrange(i, i + needle.len()) == needle
}

/// The first position at or after `k` where `needle` occurs.
pub open spec fn find_from(haystack: Seq<u8>, needle: Seq<u8>, k: int) -> Option<int>
    decreases haystack.len() + 1 - k,
{
    if k < 0 || k + needle.len() > haystack.len() {
        None
    } else if occurs_at(haystack, needle, k) {
        Some(k)
    } else {
        find_from(haystack, needle, k + 1)
    }
}

proof fn lemma_find_from(haystack: Seq<u8>, needle: Seq<u8>, k: int)
    ensures
        find_from(haystack, needle, k) matches Some(i) ==> k <= i && occurs_at(haystack, needle, i),
    decreases haystack.len() + 1 - k,
{
    if !(k < 0 || k + needle.len() > haystack.len()) && !occurs_at(haystack, needle, k) {
        lemma_find_from(haystack, needle, k + 1);
    }
}

/// The first position where a non-empty `needle` occurs in `haystack`.
pub fn find_subslice(haystack: &[u8], needle: &[u8]) -> (r: Option<usize>)
    requires
        needle@.len() > 0,
    ensures
        match r {
            Some(i) => find_from(haystack@, needle@, 0) == Some(i as int),
            None => find_from(haystack@, needle@, 0) is None,
        },
        r matches Some(i) ==> occurs_at(haystack@, needle@, i as int),
{
    proof {
        lemma_find_from(haystack@, needle@, 0);
    }
    if needle.len() > haystack.len() {
        return None;
    }
    let last = haystack.len() - needle.len();
    let mut i: usize = 0;
    while i <= last
        invariant
            needle@.len() > 0,
            haystack@.len() <= usize::MAX,
            last + needle@.len() == haystack@.len(),
            i <= last + 1,
            find_from(haystack@, needle@, 0) == find_from(haystack@, needle@, i as int),
        decreases last + 1 - i,
    {
        let mut j: usize = 0;
        let mut same = true;
        while j < needle.len()
            invariant
                i + needle@.len() <= haystack@.len(),
                haystack@.len() <= usize::MAX,
                j <= needle@.len(),
                same == forall|k: int| 0 <= k < j ==> haystack@[i + k] == needle@[k],
            decreases needle@.len() - j,
        {
            if haystack[i + j] != needle[j] {
                same = false;
            }
            j = j + 1;
        }
        proof {
            if same {
                assert(haystack@.subrange(i as int, i + needle@.len()) =~= needle@);
            } else {
                let k = choose|k: int| 0 <= k < needle@.len() && haystack@[i + k] != needle@[k];
                assert(haystack@.subrange(i as int, i + needle@.len())[k] != needle@[k]);
            }
        }
        if same {
            return Some(i);
        }
        i = i + 1;
    }
    None
}

/// The decoded text of UTF-8 `bytes` as `std::str::from_utf8` gives it:
/// `Some` exactly when the bytes are valid UTF-8, holding the characters
/// they encode.
#[verifier::external_body]
fn utf8_text(bytes: &[u8]) -> (r: Option<String>)
    ensures
        r is Some == valid_utf8(bytes@),
        r matches Some(s) ==> s@ == decode_utf8(bytes@),
{
    std::str::from_utf8(bytes).ok().map(|s| s.to_string())
}

/// The bytes of `b` with every carriage return (byte 13) removed.
pub open spec fn without_cr(b: Seq<u8>) -> Seq<u8>
    decreases b.len(),
{
    if b.len() == 0 {
        seq![]
    } else if b.last() == 13u8 {
        without_cr(b.drop_last())
    } else {
        without_cr(b.drop_last()).push(b.last())
    }
}

pub open spec fn blank_line() -> Seq<u8> {
    seq![10u8, 10u8]
}

/// The complete events in `buf` (each without its terminating blank line)
/// and the bytes left after the last one.
pub open spec fn split_events(buf: Seq<u8>) -> (Seq<Seq<u8>>, Seq<u8>)
    decreases buf.len(),
{
    match find_from(buf, blank_line(), 0) {
        Some(e) => if 0 <= e && e + 2 <= buf.len() {
            let r = split_events(buf.skip(e + 2));
            (seq![buf.take(e)] + r.0, r.1)
        } else {
            (seq![], buf)
        },
        None => (seq![], buf),
    }
}

/// The model-state update an event carries: its bytes decode as UTF-8, it
/// has data, and the data is a `modelStatus` frame.
pub open spec fn event_update(e: Seq<u8>) -> Option<Seq<(Seq<char>, LlamaSwapModelState)>> {
    if valid_utf8(e) {
        match event_data(decode_utf8(e)) {
            Some(p) => status_payload(p),
            None => None,
        }
    } else {
        None
    }
}

/// The updates carried by the first `n` events, in order.
pub open spec fn event_updates(events: Seq<Seq<u8>>, n: int) -> Seq<Seq<(Seq<char>, LlamaSwapModelState)>>
    decreases n,
{
    if n <= 0 {
        seq![]
    } else {
        match event_update(events[n - 1]) {
            Some(u) => event_updates(events, n - 1).push(u),
            None => event_updates(events, n - 1),
        }
    }
}

proof fn lemma_event_updates_prefix(a: Seq<Seq<u8>>, b: Seq<Seq<u8>>, n: int)
    requires
        0 <= n <= a.len(),
        n <= b.len(),
        forall|i: int| 0 <= i < n ==> a[i] == b[i],
    ensures
        event_updates(a, n) == event_updates(b, n),
    decreases n,
{
    if n > 0 {
        lemma_event_updates_prefix(a, b, n - 1);
    }
}

/// Incremental decoder for an SSE byte stream: accumulates bytes across
/// chunks (carriage returns dropped, so `\r\n\r\n` and `\n\n` delimit alike),
/// splits events on blank lines and yields each `modelStatus` update.
#[derive(Debug)]
pub struct SseDecoder {
    buffer: Vec<u8>,
}

impl Default for SseDecoder {
    fn default() -> (r: Self)
        ensures
            r.buffered() == Seq::<u8>::empty(),
    {
        SseDecoder { buffer: Vec::new() }
    }
}

impl SseDecoder {
    /// The bytes received but not yet part of a complete event.
    pub closed spec fn buffered(&self) -> Seq<u8> {
        self.buffer@
    }

    /// Feeds a chunk; returns the updates of the events it completes.
    pub fn push(&mut self, chunk: &[u8]) -> (r: Vec<Vec<(String, LlamaSwapModelState)>>)
        ensures
            ({
                let sp = split_events(old(self).buffered() + without_cr(chunk@));
                &&& final(self).buffered() == sp.1
                &&& r@.map_values(|u: Vec<(String, LlamaSwapModelState)>| states_view(u)) == event_updates(sp.0, sp.0.len() as int)
            }),
    {
        let ghost start = self.buffer@;
        let mut k: usize = 0;
        while k < chunk.len()
            invariant
                k <= chunk@.len(),
                self.buffer@ == start + without_cr(chunk@.take(k as int)),
            decreases chunk@.len() - k,
        {
            proof {
                assert(chunk@.take(k + 1).drop_last() =~= chunk@.take(k as int));
            }
            if chunk[k] != 13u8 {
                self.buffer.push(chunk[k]);
            }
            proof {
                assert(self.buffer@ =~= start + without_cr(chunk@.take(k + 1)));
            }
            k = k + 1;
        }
        proof {
            assert(chunk@.take(chunk@.len() as int) =~= chunk@);
        }
        let ghost all = self.buffer@;
        let mut needle: Vec<u8> = Vec::new();
        needle.push(10u8);
        needle.push(10u8);
        assert(needle@ =~= blank_line());
        let mut updates: Vec<Vec<(String, LlamaSwapModelState)>> = Vec::new();
        let ghost mut events: Seq<Seq<u8>> = Seq::empty();
        loop
            invariant
                needle@ == blank_line(),
                split_events(all) == (events + split_events(self.buffer@).0, split_events(self.buffer@).1),
                updates@.map_values(|u: Vec<(String, LlamaSwapModelState)>| states_view(u)) == event_updates(events, events.len() as int),
            ensures
                split_events(all) == (events, self.buffer@),
                updates@.map_values(|u: Vec<(String, LlamaSwapModelState)>| states_view(u)) == event_updates(events, events.len() as int),
            decreases self.buffer@.len(),
        {
            let found = find_subslice(self.buffer.as_slice(), needle.as_slice());
            let end = match found {
                Some(e) => e,
                None => {
                    proof {
                        assert(events + split_events(self.buffer@).0 =~= events);
                    }
                    break;
                },
            };
            let ghost buf = self.buffer@;
            let mut event: Vec<u8> = Vec::new();
            let mut j: usize = 0;
            while j < end
                invariant
                    buf == self.buffer@,
                    end + 2 <= buf.len(),
                    j <= end,
                    event@ == buf.take(j as int),
                decreases end - j,
            {
                event.push(self.buffer[j]);
                proof {
                    assert(event@ =~= buf.take(j + 1));
                }
                j = j + 1;
            }
            let blen = self.buffer.len();
            assert(end + 2 <= blen);
            let tail = self.buffer.split_off(end + 2);
            self.buffer = tail;
            proof {
                assert(self.buffer@ =~= buf.skip(end + 2));
                let r = split_events(buf.skip(end + 2));
                assert(split_events(buf) == (seq![buf.take(end as int)] + r.0, r.1));
                assert(events + split_events(buf).0 =~= events.push(event@) + r.0);
            }
            let ghost prev_events = events;
            let ghost prev_updates = updates@.map_values(|u: Vec<(String, LlamaSwapModelState)>| states_view(u));
            proof {
                events = events.push(event@);
                lemma_event_updates_prefix(events, prev_events, prev_events.len() as int);
            }
            match utf8_text(event.as_slice()) {
                Some(text) => {
                    match sse_data_field(text.as_str()) {
                        Some(payload) => {
                            match parse_model_status_payload(payload.as_str()) {
                                Some(update) => {
                                    updates.push(update);
                                    proof {
                                        assert(updates@.map_values(|u: Vec<(String, LlamaSwapModelState)>| states_view(u)) =~= prev_updates.push(states_view(update)));
                                    }
                                },
                                None => {},
                            }
                        },
                        None => {},
                    }
                },
                None => {},
            }
        }
        updates
    }
}

/// Mebibytes in `bytes`, rounded down.
pub fn bytes_to_mb(bytes: u64) -> (r: u64)
    ensures
        r as int == bytes as int / 1048576,
{
    bytes / 1024 / 1024
}

pub open spec fn is_path_separator(c: char) -> bool {
    c == '/' || c == '\\'
}

/// The characters after the last `/` or `\` of `s` (all of `s` when it has
/// neither).
pub open spec fn path_leaf(s: Seq<char>) -> Seq<char>
    decreases s.len(),
{
    if s.len() == 0 {
        s
    } else if is_path_separator(s.last()) {
        seq![]
    } else {
        path_leaf(s.drop_last()).push(s.last())
    }
}

/// `s` without the suffix `suffix`, or `None` when it does not end with it.
pub open spec fn without_suffix(s: Seq<char>, suffix: Seq<char>) -> Option<Seq<char>> {
    if s.len() >= suffix.len() && s.skip(s.len() - suffix.len()) == suffix {
        Some(s.take(s.len() - suffix.len()))
    } else {
        None
    }
}

/// A model id as runtimes report it, reduced to the file name of the model
/// with its `.gguf` (or else `.bin`) extension removed.
pub open spec fn normalized_model_id(raw: Seq<char>) -> Seq<char> {
    let leaf = path_leaf(raw);
    match without_suffix(leaf, ".gguf"@) {
        Some(x) => x,
        None => match without_suffix(leaf, ".bin"@) {
            Some(x) => x,
            None => leaf,
        },
    }
}

proof fn lemma_path_leaf(s: Seq<char>, start: int)
    requires
        0 <= start <= s.len(),
        start == 0 || is_path_separator(s[start - 1]),
        forall|j: int| start <= j < s.len() ==> !is_path_separator(#[trigger] s[j]),
    ensures
        path_leaf(s) == s.subrange(start, s.len() as int),
    decreases s.len(),
{
    if s.len() > start {
        lemma_path_leaf(s.drop_last(), start);
        assert(s.drop_last().subrange(start, s.len() - 1).push(s.last()) =~= s.subrange(start, s.len() as int));
    } else if s.len() > 0 {
        assert(s.subrange(start, s.len() as int) =~= Seq::<char>::empty());
    } else {
        assert(s.subrange(start, s.len() as int) =~= s);
    }
}

/// Whether `chars[start..end]` ends with `suffix`.
fn ends_with_chars(chars: &Vec<char>, start: usize, end: usize, suffix: &Vec<char>) -> (r: bool)
    requires
        start <= end <= chars@.len(),
    ensures
        r == (without_suffix(chars@.subrange(start as int, end as int), suffix@) is Some),
{
    let ghost w = chars@.subrange(start as int, end as int);
    if end - start < suffix.len() {
        return false;
    }
    let base = end - suffix.len();
    let mut k: usize = 0;
    while k < suffix.len()
        invariant
            start <= base,
            base + suffix@.len() == end,
            end <= chars@.len(),
            k <= suffix@.len(),
            w == chars@.subrange(start as int, end as int),
            forall|j: int| 0 <= j < k ==> chars@[base + j] == suffix@[j],
        decreases suffix@.len() - k,
    {
        if chars[base + k] != suffix[k] {
            proof {
                assert(w.skip(w.len() - suffix@.len())[k as int] != suffix@[k as int]);
            }
            return false;
        }
        k = k + 1;
    }
    proof {
        assert(w.skip(w.len() - suffix@.len()) =~= suffix@);
    }
    true
}

/// Reduces a runtime's model name to a model id: the file name after the
/// last `/` or `\`, without a `.gguf` or `.bin` extension.
pub fn normalize_model_id(raw: &str) -> (r: ModelId)
    ensures
        r.0@ == normalized_model_id(raw@),
{
    let chars = chars_of(raw);
    let mut start: usize = 0;
    let mut i: usize = 0;
    while i < chars.len()
        invariant
            chars@ == raw@,
            start <= i <= chars@.len(),
            start == 0 || is_path_separator(chars@[start - 1]),
            forall|j: int| start <= j < i ==> !is_path_separator(#[trigger] chars@[j]),
        decreases chars@.len() - i,
    {
        if chars[i] == '/' || chars[i] == '\\' {
            start = i + 1;
        }
        i = i + 1;
    }
    proof {
        lemma_path_leaf(raw@, start as int);
    }
    let ghost leaf = raw@.subrange(start as int, chars@.len() as int);
    let n = chars.len();
    let gguf = chars_of(".gguf");
    let bin = chars_of(".bin");
    proof {
        reveal_strlit(".gguf");
        reveal_strlit(".bin");
    }
    let end = if ends_with_chars(&chars, start, n, &gguf) {
        n - 5
    } else if ends_with_chars(&chars, start, n, &bin) {
        n - 4
    } else {
        n
    };
    let r = substring(raw, start, end);
    proof {
        assert(r@ =~= normalized_model_id(raw@));
    }
    ModelId(r)
}

impl SortKey for ModelResident {
    open spec fn spec_le(a: Self, b: Self) -> bool {
        text_le(a.model_id.0@, b.model_id.0@)
    }

    proof fn lemma_total_preorder() {
        let le = |a: Self, b: Self| Self::spec_le(a, b);
        assert forall|a: Self| #[trigger] le(a, a) by {
            lemma_text_le_reflexive(a.model_id.0@);
        }
        assert forall|a: Self, b: Self, c: Self| #[trigger] le(a, b) && #[trigger] le(b, c) implies le(a, c) by {
            lemma_text_le_transitive(a.model_id.0@, b.model_id.0@, c.model_id.0@);
        }
        assert forall|a: Self, b: Self| #[trigger] le(a, b) || #[trigger] le(b, a) by {
            lemma_text_le_total(a.model_id.0@, b.model_id.0@);
        }
    }

    fn le(&self, other: &Self) -> (r: bool) {
        str_le(self.model_id.0.as_str(), other.model_id.0.as_str())
    }
}

/// A resident by its id and residency.
pub open spec fn resident_key(m: ModelResident) -> (Seq<char>, ResidencyState) {
    (m.model_id.0@, m.state)
}

/// The loaded models among `states` (runtime name and process state), by
/// normalized id and residency, in the order given.
pub open spec fn loaded_residents(states: Seq<(Seq<char>, LlamaSwapModelState)>) -> Seq<(Seq<char>, ResidencyState)>
    decreases states.len(),
{
    if states.len() == 0 {
        seq![]
    } else {
        let rest = loaded_residents(states.drop_last());
        match state_residency(states.last().1) {
            Some(r) => rest.push((normalized_model_id(states.last().0), r)),
            None => rest,
        }
    }
}

pub open spec fn key_le(a: (Seq<char>, ResidencyState), b: (Seq<char>, ResidencyState)) -> bool {
    text_le(a.0, b.0)
}

/// Snapshot residents from llama-swap model states: models that are not
/// loaded are left out, ids are normalized, no measurements are known, and
/// the result is sorted by model id (stably).
pub fn residents_from_states(states: &Vec<(String, LlamaSwapModelState)>) -> (r: Vec<ModelResident>)
    ensures
        is_stable_sort(
            r@.map_values(|m: ModelResident| resident_key(m)),
            loaded_residents(states_view(*states)),
            |a: (Seq<char>, ResidencyState), b: (Seq<char>, ResidencyState)| key_le(a, b),
        ),
        forall|k: int| 0 <= k < r@.len() ==> {
            &&& (#[trigger] r@[k]).vram_mb is None
            &&& r@[k].ram_mb is None
            &&& r@[k].kv_cache_mb is None
            &&& r@[k].loaded_since is None
        },
{
    let ghost sv = states_view(*states);
    let mut unsorted: Vec<ModelResident> = Vec::new();
    let mut i: usize = 0;
    while i < states.len()
        invariant
            i <= states@.len(),
            sv == states_view(*states),
            unsorted@.map_values(|m: ModelResident| resident_key(m)) == loaded_residents(sv.take(i as int)),
            forall|k: int| 0 <= k < unsorted@.len() ==> {
                &&& (#[trigger] unsorted@[k]).vram_mb is None
                &&& unsorted@[k].ram_mb is None
                &&& unsorted@[k].kv_cache_mb is None
                &&& unsorted@[k].loaded_since is None
            },
        decreases states@.len() - i,
    {
        let name = &states[i].0;
        let state = states[i].1;
        proof {
            assert(sv.take(i + 1).drop_last() =~= sv.take(i as int));
            assert(sv.take(i + 1).last() == sv[i as int]);
        }
        match state.residency() {
            Some(residency) => {
                let id = normalize_model_id(name.as_str());
                let ghost before = unsorted@;
                unsorted.push(ModelResident {
                    model_id: id,
                    state: residency,
                    vram_mb: None,
                    ram_mb: None,
                    kv_cache_mb: None,
                    loaded_since: None,
                });
                proof {
                    assert(unsorted@.map_values(|m: ModelResident| resident_key(m)) =~= before.map_values(
                        |m: ModelResident| resident_key(m),
                    ).push((normalized_model_id(sv[i as int].0), residency)));
                }
            },
            None => {},
        }
        i = i + 1;
    }
    proof {
        assert(sv.take(states@.len() as int) =~= sv);
    }
    let ghost u = unsorted@;
    let sorted = stable_sort(unsorted);
    proof {
        lemma_stable_sort_map(
            sorted@,
            u,
            |a: ModelResident, b: ModelResident| ModelResident::spec_le(a, b),
            |m: ModelResident| resident_key(m),
            |a: (Seq<char>, ResidencyState), b: (Seq<char>, ResidencyState)| key_le(a, b),
        );
        let le = |a: ModelResident, b: ModelResident| ModelResident::spec_le(a, b);
        let p = choose|p: Seq<int>| #[trigger] is_sort_witness(sorted@, u, le, p);
        assert forall|k: int| 0 <= k < sorted@.len() implies {
            &&& (#[trigger] sorted@[k]).vram_mb is None
            &&& sorted@[k].ram_mb is None
            &&& sorted@[k].kv_cache_mb is None
            &&& sorted@[k].loaded_since is None
        } by {
            assert(sorted@[k] == u[p[k]]);
        }
    }
    sorted
}


/// The name of a model-state entry.
pub open spec fn state_key() -> spec_fn((Seq<char>, LlamaSwapModelState)) -> Seq<char> {
    |e: (Seq<char>, LlamaSwapModelState)| e.0
}

/// Replaces the model-state cache with a full `modelStatus` snapshot:
/// llama-swap pushes the complete model set on every change, so nothing of
/// the previous contents survives. A name listed twice keeps its last state.
pub fn apply_model_status(cache: &mut Vec<(String, LlamaSwapModelState)>, entries: Vec<(String, LlamaSwapModelState)>)
    ensures
        states_view(*final(cache)) == upsert_all(states_view(entries), state_key()),
        keys_distinct(states_view(*final(cache)), state_key()),
{
    let ghost sv = states_view(entries);
    let mut out: Vec<(String, LlamaSwapModelState)> = Vec::new();
    let mut i: usize = 0;
    while i < entries.len()
        invariant
            i <= entries@.len(),
            sv == states_view(entries),
            states_view(out) == upsert_all(sv.take(i as int), state_key()),
        decreases entries@.len() - i,
    {
        let ghost before = states_view(out);
        let name = entries[i].0.clone();
        let state = entries[i].1;
        proof {
            assert(sv.take(i + 1).drop_last() =~= sv.take(i as int));
            assert(sv.take(i + 1).last() == sv[i as int]);
        }
        let mut j: usize = 0;
        let mut found = false;
        while j < out.len()
            invariant_except_break
                !found,
            invariant
                j <= out@.len(),
                before == states_view(out),
                forall|k: int| 0 <= k < j ==> (state_key())(#[trigger] before[k]) != name@,
            ensures
                found ==> j < out@.len() && before[j as int].0 == name@,
                !found ==> j == out@.len(),
            decreases out@.len() - j,
        {
            if str_eq(out[j].0.as_str(), name.as_str()) {
                found = true;
                break;
            }
            j = j + 1;
        }
        if found {
            proof {
                assert(is_first_key(before, state_key(), name@, j as int));
                lemma_first_key_unique(before, state_key(), name@, j as int);
            }
            out.set(j, (name, state));
            proof {
                assert(states_view(out) =~= upsert(before, state_key(), (sv[i as int].0, state)));
            }
        } else {
            proof {
                assert(!has_key(before, state_key(), name@));
            }
            out.push((name, state));
            proof {
                assert(states_view(out) =~= upsert(before, state_key(), (sv[i as int].0, state)));
            }
        }
        i = i + 1;
    }
    proof {
        assert(sv.take(entries@.len() as int) =~= sv);
        lemma_upsert_all_distinct(sv, state_key());
    }
    *cache = out;
}


proof fn lemma_without_cr_concat(x: Seq<u8>, y: Seq<u8>)
    ensures
        without_cr(x + y) == without_cr(x) + without_cr(y),
    decreases y.len(),
{
    if y.len() == 0 {
        assert(x + y =~= x);
        assert(without_cr(x) + without_cr(y) =~= without_cr(x));
    } else {
        lemma_without_cr_concat(x, y.drop_last());
        assert((x + y).drop_last() =~= x + y.drop_last());
        assert((x + y).last() == y.last());
        if y.last() == 13u8 {
        } else {
            assert(without_cr(x) + without_cr(y) =~= (without_cr(x) + without_cr(y.drop_last())).push(y.last()));
        }
    }
}

proof fn lemma_find_from_extend(x: Seq<u8>, y: Seq<u8>, needle: Seq<u8>, k: int)
    requires
        find_from(x, needle, k) is Some,
    ensures
        find_from(x + y, needle, k) == find_from(x, needle, k),
    decreases x.len() + 1 - k,
{
    let xy = x + y;
    if !(k < 0 || k + needle.len() > x.len()) {
        assert(xy.subrange(k, k + needle.len()) =~= x.subrange(k, k + needle.len()));
        if !occurs_at(x, needle, k) {
            lemma_find_from_extend(x, y, needle, k + 1);
        }
    }
}

proof fn lemma_split_events_concat(x: Seq<u8>, y: Seq<u8>)
    ensures
        ({
            let sx = split_events(x);
            let rest = split_events(sx.1 + y);
            split_events(x + y) == (sx.0 + rest.0, rest.1)
        }),
    decreases x.len(),
{
    let bl = blank_line();
    match find_from(x, bl, 0) {
        Some(e) => {
            lemma_find_from(x, bl, 0);
            lemma_find_from_extend(x, y, bl, 0);
            let xy = x + y;
            assert(xy.take(e) =~= x.take(e));
            assert(xy.skip(e + 2) =~= x.skip(e + 2) + y);
            lemma_split_events_concat(x.skip(e + 2), y);
            let inner = split_events(x.skip(e + 2));
            let rest = split_events(inner.1 + y);
            assert(split_events(x) == (seq![x.take(e)] + inner.0, inner.1));
            assert(split_events(xy) == (seq![xy.take(e)] + split_events(xy.skip(e + 2)).0, split_events(xy.skip(e + 2)).1));
            assert(seq![x.take(e)] + (inner.0 + rest.0) =~= (seq![x.take(e)] + inner.0) + rest.0);
        },
        None => {
            assert(split_events(x) == (Seq::<Seq<u8>>::empty(), x));
            assert(Seq::<Seq<u8>>::empty() + split_events(x + y).0 =~= split_events(x + y).0);
        },
    }
}

proof fn lemma_event_updates_concat(a: Seq<Seq<u8>>, b: Seq<Seq<u8>>)
    ensures
        event_updates(a + b, (a + b).len() as int) == event_updates(a, a.len() as int) + event_updates(b, b.len() as int),
    decreases b.len(),
{
    if b.len() == 0 {
        assert(a + b =~= a);
        assert(event_updates(a, a.len() as int) + event_updates(b, 0) =~= event_updates(a, a.len() as int));
    } else {
        let ab = a + b;
        lemma_event_updates_concat(a, b.drop_last());
        assert(ab.drop_last() =~= a + b.drop_last());
        lemma_event_updates_prefix(ab, ab.drop_last(), ab.len() - 1);
        lemma_event_updates_prefix(b, b.drop_last(), b.len() - 1);
        assert(ab[ab.len() - 1] == b[b.len() - 1]);
        match event_update(b[b.len() - 1]) {
            Some(u) => {
                assert(event_updates(a, a.len() as int) + event_updates(b, b.len() as int) =~= (event_updates(a, a.len() as int) + event_updates(b.drop_last(), b.len() - 1)).push(u));
            },
            None => {},
        }
    }
}

/// How a stream is cut into chunks is invisible: feeding `first` and then
/// `second` to a decoder holding `buffered` yields the updates, in order,
/// and leaves the bytes buffered, that feeding `first + second` at once
/// does.
pub proof fn lemma_chunking_is_invisible(buffered: Seq<u8>, first: Seq<u8>, second: Seq<u8>)
    ensures
        ({
            let s1 = split_events(buffered + without_cr(first));
            let s2 = split_events(s1.1 + without_cr(second));
            let s = split_events(buffered + without_cr(first + second));
            &&& s.1 == s2.1
            &&& event_updates(s.0, s.0.len() as int) == event_updates(s1.0, s1.0.len() as int) + event_updates(s2.0, s2.0.len() as int)
        }),
{
    lemma_without_cr_concat(first, second);
    let x = buffered + without_cr(first);
    let y = without_cr(second);
    assert(buffered + without_cr(first + second) =~= x + y);
    lemma_split_events_concat(x, y);
    let s1 = split_events(x);
    let s2 = split_events(s1.1 + y);
    lemma_event_updates_concat(s1.0, s2.0);
}

} // verus!
