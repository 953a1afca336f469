//! Speech-recognition records: their states, their default titles, and the
//! text indexed for summary search.

use vstd::prelude::*;
use crate::config::AsrProvider;
use crate::ids::{new_uuid, now_millis, uuid_shaped};
use crate::memory::MemoryHit;
use crate::order::{as_ints, at_most};
use crate::tools::search_file::contains_text;
use crate::text::{
    chars_of, eq_chars, extend_chars, find, find_chars, lower, lower_chars, single, slice_chars, string_of, trim_start,
    strs, to_lowercase_string, trim_start_chars,
};

verus! {

/// Where a transcription stands.
#[derive(Debug, Clone, Copy, PartialEq, Eq, Structural)]
pub enum AsrStatus {
    Pending,
    Transcribing,
    /// Transcribed, summary not yet written.
    Transcribed,
    Summarizing,
    /// Transcribed and summarised.
    Completed,
    Failed,
}

/// Where the audio came from.
#[derive(Debug, Clone, Copy, PartialEq, Eq, Structural)]
pub enum AsrSource {
    Streaming,
    Upload,
}

/// Characters of the transcript that go into the search index.
pub const TRANSCRIPT_PREFIX_CHARS: usize = 200;

/// Characters of the transcript that make a default title.
pub const DEFAULT_TITLE_CHARS: usize = 30;

/// One transcription record; times are milliseconds since the Unix epoch.
#[derive(Debug, Clone)]
pub struct AsrRecord {
    pub id: String,
    pub audio_path: String,
    /// The full transcript (kept in a file of its own on disk).
    pub transcript: String,
    pub title: String,
    pub language: String,
    pub summary: Option<String>,
    pub error_message: Option<String>,
    pub tags: Vec<String>,
    pub created_at_ms: i64,
    pub updated_at_ms: i64,
    pub duration_ms: u64,
    pub sample_rate: u32,
    pub provider: AsrProvider,
    pub status: AsrStatus,
    pub source: AsrSource,
}

/// The first `n` characters of `s` (all of it when shorter).
pub open spec fn prefix_chars(s: Seq<char>, n: nat) -> Seq<char> {
    if s.len() <= n {
        s
    } else {
        s.subrange(0, n as int)
    }
}

fn take_chars(s: &str, n: usize) -> (r: Vec<char>)
    ensures
        r@ == prefix_chars(s@, n as nat),
{
    let cs = chars_of(s);
    if cs.len() <= n {
        cs
    } else {
        slice_chars(&cs, 0, n)
    }
}

impl AsrRecord {
    /// A new pending record for `audio_path` with a fresh random id, created
    /// now; its title is the default title of the transcript.
    pub fn new(audio_path: &str, transcript: &str, source: AsrSource) -> (r: AsrRecord)
        ensures
            uuid_shaped(r.id@),
            r.created_at_ms >= 0,
            r.updated_at_ms == r.created_at_ms,
            r.audio_path@ == audio_path@,
            r.transcript@ == transcript@,
            r.title@ == prefix_chars(transcript@, 30),
            r.language@ == "zh-CN"@,
            r.summary is None,
            r.error_message is None,
            r.tags@.len() == 0,
            r.duration_ms == 0,
            r.sample_rate == 0,
            r.provider == AsrProvider::VolcEngine,
            r.status == AsrStatus::Pending,
            r.source == source,
    {
        let id = new_uuid();
        let now = now_millis();
        AsrRecord::new_with(id, now, audio_path, transcript, source)
    }

    /// A new pending record for `audio_path`, with the given id and creation
    /// time; its title is the default title of the transcript.
    pub fn new_with(
        id: String,
        now_ms: i64,
        audio_path: &str,
        transcript: &str,
        source: AsrSource,
    ) -> (r: AsrRecord)
        ensures
            r.id == id,
            r.audio_path@ == audio_path@,
            r.transcript@ == transcript@,
            r.title@ == prefix_chars(transcript@, 30),
            r.language@ == "zh-CN"@,
            r.summary is None,
            r.error_message is None,
            r.tags@.len() == 0,
            r.created_at_ms == now_ms,
            r.updated_at_ms == now_ms,
            r.duration_ms == 0,
            r.sample_rate == 0,
            r.provider == AsrProvider::VolcEngine,
            r.status == AsrStatus::Pending,
            r.source == source,
    {
        AsrRecord {
            id,
            audio_path: audio_path.to_string(),
            transcript: transcript.to_string(),
            title: AsrRecord::default_title(transcript),
            language: "zh-CN".to_string(),
            summary: None,
            error_message: None,
            tags: Vec::new(),
            created_at_ms: now_ms,
            updated_at_ms: now_ms,
            duration_ms: 0,
            sample_rate: 0,
            provider: AsrProvider::VolcEngine,
            status: AsrStatus::Pending,
            source,
        }
    }

    /// The first 30 characters of the transcript.
    pub fn default_title(transcript: &str) -> (r: String)
        ensures
            r@ == prefix_chars(transcript@, 30),
    {
        let v = take_chars(transcript, DEFAULT_TITLE_CHARS);
        string_of(&v)
    }
}

/// The text indexed for a record: its title, its summary (empty when none)
/// and the first 200 characters of its transcript, one per line.
pub open spec fn index_content(title: Seq<char>, summary: Option<String>, transcript: Seq<char>) -> Seq<char> {
    let s = match summary {
        Some(x) => x@,
        None => Seq::empty(),
    };
    title + seq!['\n'] + s + seq!['\n'] + prefix_chars(transcript, 200)
}

/// Builds the indexed text of a record (see `index_content`).
pub fn build_index_content(record: &AsrRecord) -> (r: String)
    ensures
        r@ == index_content(record.title@, record.summary, record.transcript@),
{
    let mut out = chars_of(record.title.as_str());
    out.push('\n');
    match &record.summary {
        Some(s) => {
            let sc = chars_of(s.as_str());
            extend_chars(&mut out, &sc);
        },
        None => {},
    }
    out.push('\n');
    let tp = take_chars(record.transcript.as_str(), TRANSCRIPT_PREFIX_CHARS);
    extend_chars(&mut out, &tp);
    assert(out@ =~= index_content(record.title@, record.summary, record.transcript@));
    string_of(&out)
}

/// Title and summary of a snippet: the first line, and the rest without its
/// leading white space; without a line break, all of it and nothing.
pub open spec fn title_and_snippet(snippet: Seq<char>) -> (Seq<char>, Seq<char>) {
    match find(snippet, seq!['\n']) {
        Some(p) => (
            snippet.subrange(0, p),
            trim_start(snippet.subrange(p + 1, snippet.len() as int)),
        ),
        None => (snippet, Seq::empty()),
    }
}

/// Splits an index snippet into its title line and the summary after it.
pub fn split_title_and_snippet(snippet: &str) -> (r: (String, String))
    ensures
        (r.0@, r.1@) == title_and_snippet(snippet@),
{
    let cs = chars_of(snippet);
    let nl = single('\n');
    match find_chars(&cs, &nl, 0) {
        Some(p) => {
            let title = slice_chars(&cs, 0, p);
            let rest = slice_chars(&cs, p + 1, cs.len());
            let summary = trim_start_chars(&rest);
            (string_of(&title), string_of(&summary))
        },
        None => (string_of(&cs), String::new()),
    }
}

/// How many hits a summary search asks the index for: twice the limit,
/// at least 20 (saturating).
pub fn fetch_limit(limit: usize) -> (r: usize)
    ensures
        r == if limit * 2 > usize::MAX {
            usize::MAX as int
        } else if limit * 2 < 20 {
            20
        } else {
            limit * 2
        },
{
    let d = if limit > usize::MAX / 2 {
        usize::MAX
    } else {
        limit * 2
    };
    if d < 20 {
        20
    } else {
        d
    }
}

/// A search over the stored records; every filter is optional, and a limit
/// of 0 means 50.
pub struct AsrSearchQuery {
    pub keyword: Option<String>,
    /// Earliest creation time, in milliseconds.
    pub start_ms: Option<i64>,
    /// Latest creation time, in milliseconds.
    pub end_ms: Option<i64>,
    pub source: Option<AsrSource>,
    pub status: Option<AsrStatus>,
    pub limit: usize,
}

impl Default for AsrSearchQuery {
    fn default() -> (q: AsrSearchQuery)
        ensures
            q.keyword is None && q.start_ms is None && q.end_ms is None && q.source is None
                && q.status is None && q.limit == 50,
    {
        AsrSearchQuery {
            keyword: None,
            start_ms: None,
            end_ms: None,
            source: None,
            status: None,
            limit: 50,
        }
    }
}

/// `kw` occurs in the lowercase form of `text`.
pub open spec fn keyword_in(text: Seq<char>, kw: Seq<char>) -> bool {
    contains_text(lower(text), kw)
}

/// The (lowercase) keyword occurs in the record's title, transcript, summary
/// or one of its tags, each compared in lower case.
pub open spec fn record_has_keyword(r: AsrRecord, kw: Seq<char>) -> bool {
    ||| keyword_in(r.title@, kw)
    ||| keyword_in(r.transcript@, kw)
    ||| (match r.summary {
        Some(s) => keyword_in(s@, kw),
        None => false,
    })
    ||| exists|i: int| 0 <= i < r.tags@.len() && keyword_in(#[trigger] r.tags@[i]@, kw)
}

/// The record passes every filter of the query.
pub open spec fn record_selected(r: AsrRecord, q: AsrSearchQuery) -> bool {
    &&& (match q.keyword {
        Some(k) => record_has_keyword(r, lower(k@)),
        None => true,
    })
    &&& (match q.start_ms {
        Some(s) => r.created_at_ms >= s,
        None => true,
    })
    &&& (match q.end_ms {
        Some(e) => r.created_at_ms <= e,
        None => true,
    })
    &&& (match q.source {
        Some(s) => r.source == s,
        None => true,
    })
    &&& (match q.status {
        Some(s) => r.status == s,
        None => true,
    })
}

/// The positions `0..n`.
pub open spec fn positions(n: nat) -> Seq<int> {
    Seq::new(n, |i: int| i)
}

/// The records a search returns, by position: those that pass the filters,
/// in stored order, at most `limit` (50 when 0) of them.
pub open spec fn search_result(records: Seq<AsrRecord>, q: AsrSearchQuery) -> Seq<int> {
    at_most(
        positions(records.len()).filter(|i: int| record_selected(records[i], q)),
        if q.limit == 0 { 50 } else { q.limit as nat },
    )
}

fn has_lower_text(text: &str, kw: &[char]) -> (b: bool)
    ensures
        b == keyword_in(text@, kw@),
{
    let l = to_lowercase_string(text);
    let c = chars_of(l.as_str());
    find_chars(&c, kw, 0).is_some()
}

fn has_keyword(r: &AsrRecord, kw: &[char]) -> (b: bool)
    ensures
        b == record_has_keyword(*r, kw@),
{
    if has_lower_text(r.title.as_str(), kw) || has_lower_text(r.transcript.as_str(), kw) {
        return true;
    }
    match &r.summary {
        Some(s) => {
            if has_lower_text(s.as_str(), kw) {
                return true;
            }
        },
        None => {},
    }
    let mut i: usize = 0;
    while i < r.tags.len()
        invariant
            i <= r.tags@.len(),
            forall|j: int| 0 <= j < i ==> !keyword_in(#[trigger] r.tags@[j]@, kw@),
        decreases r.tags.len() - i,
    {
        if has_lower_text(r.tags[i].as_str(), kw) {
            return true;
        }
        i = i + 1;
    }
    false
}

/// Whether a record passes the filters of a query (see `record_selected`).
pub fn matches_query(r: &AsrRecord, q: &AsrSearchQuery) -> (b: bool)
    ensures
        b == record_selected(*r, *q),
{
    match &q.keyword {
        Some(k) => {
            let kw = lower_chars(&chars_of(k.as_str()));
            if !has_keyword(r, &kw) {
                return false;
            }
        },
        None => {},
    }
    let in_start = match q.start_ms {
        Some(s) => r.created_at_ms >= s,
        None => true,
    };
    let in_end = match q.end_ms {
        Some(e) => r.created_at_ms <= e,
        None => true,
    };
    let src_ok = match q.source {
        Some(s) => r.source == s,
        None => true,
    };
    let status_ok = match q.status {
        Some(s) => r.status == s,
        None => true,
    };
    in_start && in_end && src_ok && status_ok
}

/// Searches the records (see `search_result`); gives their positions.
pub fn search_records(records: &Vec<AsrRecord>, q: &AsrSearchQuery) -> (r: Vec<usize>)
    ensures
        as_ints(r@) == search_result(records@, *q),
        forall|j: int| 0 <= j < r@.len() ==> #[trigger] r@[j] < records@.len(),
{
    let limit: usize = if q.limit == 0 { 50 } else { q.limit };
    let ghost rs = records@;
    let ghost qq = *q;
    let ghost pred = |i: int| record_selected(rs[i], qq);
    let ghost all = positions(records@.len());
    let mut out: Vec<usize> = Vec::new();
    let mut k: usize = 0;
    while k < records.len()
        invariant
            k <= records.len(),
            rs == records@,
            qq == *q,
            all == positions(records@.len()),
            pred == (|i: int| record_selected(rs[i], qq)),
            limit as nat == if q.limit == 0 { 50 } else { q.limit as nat },
            forall|j: int| 0 <= j < out@.len() ==> #[trigger] out@[j] < records@.len(),
            as_ints(out@) == at_most(all.take(k as int).filter(pred), limit as nat),
        decreases records.len() - k,
    {
        proof {
            reveal(Seq::filter);
            assert(all.take(k + 1).drop_last() =~= all.take(k as int));
            assert(all.take(k + 1).last() == k as int);
        }
        let ghost f0 = all.take(k as int).filter(pred);
        let ghost f1 = all.take(k + 1).filter(pred);
        let sel = matches_query(&records[k], q);
        if sel && out.len() < limit {
            let ghost before = out@;
            out.push(k);
            assert(as_ints(out@) =~= as_ints(before).push(k as int));
            assert(f1 == f0.push(k as int));
        } else if sel {
            assert(f1 == f0.push(k as int));
            assert(f1.take(limit as int) =~= f0.take(limit as int));
        } else {
            assert(f1 == f0);
        }
        k = k + 1;
    }
    assert(all.take(k as int) =~= all);
    out
}

/// Position of the first record with the given id, looking from `i` on.
pub open spec fn index_of_id(rs: Seq<AsrRecord>, id: Seq<char>, i: int) -> Option<int>
    decreases rs.len() - i,
{
    if i < 0 || i >= rs.len() {
        None
    } else if rs[i].id@ == id {
        Some(i)
    } else {
        index_of_id(rs, id, i + 1)
    }
}

/// No two records share an id.
pub open spec fn ids_distinct(rs: Seq<AsrRecord>) -> bool {
    forall|i: int, j: int| 0 <= i < j < rs.len() ==> (#[trigger] rs[i]).id@ != (#[trigger] rs[j]).id@
}

proof fn lemma_index_of_id(rs: Seq<AsrRecord>, id: Seq<char>, i: int)
    requires
        0 <= i <= rs.len(),
    ensures
        index_of_id(rs, id, i) matches Some(p) ==> i <= p < rs.len() && rs[p].id@ == id && forall|
            j: int,
        | i <= j < p ==> (#[trigger] rs[j]).id@ != id,
        index_of_id(rs, id, i) is None ==> forall|j: int| i <= j < rs.len() ==> (#[trigger] rs[j]).id@ != id,
    decreases rs.len() - i,
{
    if i < rs.len() && rs[i].id@ != id {
        lemma_index_of_id(rs, id, i + 1);
    }
}

fn find_record(records: &Vec<AsrRecord>, id: &str) -> (r: Option<usize>)
    ensures
        r matches Some(p) ==> index_of_id(records@, id@, 0) == Some(p as int),
        r is None ==> index_of_id(records@, id@, 0) is None,
{
    let key = chars_of(id);
    let mut i: usize = 0;
    while i < records.len()
        invariant
            i <= records.len(),
            key@ == id@,
            index_of_id(records@, id@, 0) == index_of_id(records@, id@, i as int),
        decreases records.len() - i,
    {
        let c = chars_of(records[i].id.as_str());
        if eq_chars(&c, &key) {
            return Some(i);
        }
        i = i + 1;
    }
    None
}

/// Stores a record's metadata: it replaces the first record with the same
/// id, or is appended when there is none.
pub fn upsert_record(records: &mut Vec<AsrRecord>, meta: AsrRecord)
    ensures
        match index_of_id(old(records)@, meta.id@, 0) {
            Some(p) => final(records)@ == old(records)@.update(p, meta),
            None => final(records)@ == old(records)@.push(meta),
        },
{
    match find_record(records, meta.id.as_str()) {
        Some(p) => {
            proof {
                lemma_index_of_id(records@, meta.id@, 0);
            }
            records.set(p, meta);
        },
        None => {
            records.push(meta);
        },
    }
}

/// Takes out the first record with the given id and gives it back.
pub fn remove_record(records: &mut Vec<AsrRecord>, id: &str) -> (r: Option<AsrRecord>)
    ensures
        match index_of_id(old(records)@, id@, 0) {
            Some(p) => r == Some(old(records)@[p]) && final(records)@ == old(records)@.remove(p),
            None => r is None && final(records)@ == old(records)@,
        },
{
    match find_record(records, id) {
        Some(p) => {
            proof {
                lemma_index_of_id(records@, id@, 0);
            }
            Some(records.remove(p))
        },
        None => None,
    }
}

/// Storing a record and then looking up its id finds exactly that record,
/// and storing keeps the ids distinct.
pub proof fn lemma_upsert_then_find(rs: Seq<AsrRecord>, meta: AsrRecord)
    requires
        ids_distinct(rs),
    ensures
        ({
            let after = match index_of_id(rs, meta.id@, 0) {
                Some(p) => rs.update(p, meta),
                None => rs.push(meta),
            };
            &&& ids_distinct(after)
            &&& index_of_id(after, meta.id@, 0) matches Some(q) && after[q] == meta
        }),
{
    lemma_index_of_id(rs, meta.id@, 0);
    let after = match index_of_id(rs, meta.id@, 0) {
        Some(p) => rs.update(p, meta),
        None => rs.push(meta),
    };
    lemma_index_of_id(after, meta.id@, 0);
    match index_of_id(rs, meta.id@, 0) {
        Some(p) => {
            assert(after[p].id@ == meta.id@);
            assert forall|i: int, j: int| 0 <= i < j < after.len() implies (#[trigger] after[i]).id@
                != (#[trigger] after[j]).id@ by {
                if i != p && j != p {
                    assert(after[i] == rs[i] && after[j] == rs[j]);
                } else if i == p {
                    assert(after[j] == rs[j]);
                    assert(rs[p].id@ == meta.id@);
                    assert(rs[p].id@ != rs[j].id@);
                } else {
                    assert(after[i] == rs[i]);
                    assert(rs[i].id@ != rs[p].id@);
                }
            }
        },
        None => {
            assert(after[rs.len() as int].id@ == meta.id@);
            assert forall|i: int, j: int| 0 <= i < j < after.len() implies (#[trigger] after[i]).id@
                != (#[trigger] after[j]).id@ by {
                if j < rs.len() {
                    assert(after[i] == rs[i] && after[j] == rs[j]);
                } else {
                    assert(after[i] == rs[i]);
                }
            }
        },
    }
}

/// With distinct ids, removing an id leaves no record with it.
pub proof fn lemma_remove_then_absent(rs: Seq<AsrRecord>, id: Seq<char>)
    requires
        ids_distinct(rs),
    ensures
        ({
            let after = match index_of_id(rs, id, 0) {
                Some(p) => rs.remove(p),
                None => rs,
            };
            &&& ids_distinct(after)
            &&& index_of_id(after, id, 0) is None
        }),
{
    lemma_index_of_id(rs, id, 0);
    let after = match index_of_id(rs, id, 0) {
        Some(p) => rs.remove(p),
        None => rs,
    };
    lemma_index_of_id(after, id, 0);
    match index_of_id(rs, id, 0) {
        Some(p) => {
            assert forall|j: int| 0 <= j < after.len() implies (#[trigger] after[j]).id@ != id by {
                if j < p {
                    assert(after[j] == rs[j]);
                } else {
                    assert(after[j] == rs[j + 1]);
                    assert(rs[p].id@ != rs[j + 1].id@);
                }
            }
            assert forall|i: int, j: int| 0 <= i < j < after.len() implies (#[trigger] after[i]).id@
                != (#[trigger] after[j]).id@ by {
                let a = if i < p { i } else { i + 1 };
                let b = if j < p { j } else { j + 1 };
                assert(after[i] == rs[a] && after[j] == rs[b]);
                assert(rs[a].id@ != rs[b].id@);
            }
        },
        None => {},
    }
}

/// The memory-index namespace that holds the speech records.
pub const ASR_NAMESPACE: &'static str = "asr";

/// A creation time as the index stores it: milliseconds, negative ones as 0.
pub open spec fn index_time(ms: i64) -> u64 {
    if ms < 0 {
        0
    } else {
        ms as u64
    }
}

/// The index time stamp of a creation time (see `index_time`).
pub fn index_timestamp(ms: i64) -> (r: u64)
    ensures
        r == index_time(ms),
{
    if ms < 0 {
        0
    } else {
        ms as u64
    }
}

/// A summary-search hit: the record, its title and summary snippet, the
/// creation time in milliseconds, and the position of the index hit it was
/// made from (by which the index's relevance score is found again).
pub struct AsrSummaryHit {
    pub record_id: String,
    pub title: String,
    pub summary_snippet: String,
    pub created_at_ms: u64,
    pub hit_index: usize,
}

/// What a summary hit holds, as the contracts see it.
pub struct SummaryHitModel {
    pub record_id: Seq<char>,
    pub title: Seq<char>,
    pub summary_snippet: Seq<char>,
    pub created_at_ms: u64,
}

impl View for AsrSummaryHit {
    type V = SummaryHitModel;

    open spec fn view(&self) -> SummaryHitModel {
        SummaryHitModel {
            record_id: self.record_id@,
            title: self.title@,
            summary_snippet: self.summary_snippet@,
            created_at_ms: self.created_at_ms,
        }
    }
}

/// The summary hit made from an index hit.
pub open spec fn summary_hit_of(h: MemoryHit) -> SummaryHitModel {
    SummaryHitModel {
        record_id: h.message_id@,
        title: title_and_snippet(h.snippet@).0,
        summary_snippet: title_and_snippet(h.snippet@).1,
        created_at_ms: h.timestamp,
    }
}

/// An index hit is kept: it is a speech record, not removed, and created
/// within the time range.
pub open spec fn hit_kept(h: MemoryHit, removed: Seq<Seq<char>>, start: Option<i64>, end: Option<i64>) -> bool {
    &&& h.conversation_id@ == ASR_NAMESPACE@
    &&& !removed.contains(h.message_id@)
    &&& (match start {
        Some(s) => h.timestamp >= index_time(s),
        None => true,
    })
    &&& (match end {
        Some(e) => h.timestamp <= index_time(e),
        None => true,
    })
}

/// The positions of the index hits that a summary search returns, in the
/// index's order, at most `limit` of them.
pub open spec fn kept_hits(hits: Seq<MemoryHit>, removed: Seq<Seq<char>>, start: Option<i64>, end: Option<i64>, limit: nat) -> Seq<int> {
    at_most(positions(hits.len()).filter(|i: int| hit_kept(hits[i], removed, start, end)), limit)
}

fn hit_is_kept(h: &MemoryHit, removed: &Vec<String>, start: Option<i64>, end: Option<i64>) -> (b: bool)
    ensures
        b == hit_kept(*h, strs(removed@), start, end),
{
    let ns = chars_of(ASR_NAMESPACE);
    let cid = chars_of(h.conversation_id.as_str());
    if !eq_chars(&cid, &ns) {
        return false;
    }
    let mid = chars_of(h.message_id.as_str());
    let ghost rv = strs(removed@);
    let mut i: usize = 0;
    while i < removed.len()
        invariant
            i <= removed.len(),
            rv == strs(removed@),
            mid@ == h.message_id@,
            forall|j: int| 0 <= j < i ==> rv[j] != h.message_id@,
        decreases removed.len() - i,
    {
        let r = chars_of(removed[i].as_str());
        if eq_chars(&r, &mid) {
            assert(rv[i as int] == h.message_id@);
            return false;
        }
        i = i + 1;
    }
    let in_start = match start {
        Some(s) => h.timestamp >= index_timestamp(s),
        None => true,
    };
    let in_end = match end {
        Some(e) => h.timestamp <= index_timestamp(e),
        None => true,
    };
    in_start && in_end
}

/// The summary hits among the index's hits (see `kept_hits` and
/// `summary_hit_of`).
pub fn summary_hits(hits: &Vec<MemoryHit>, removed: &Vec<String>, start: Option<i64>, end: Option<i64>, limit: usize) -> (r: Vec<AsrSummaryHit>)
    ensures
        ({
            let k = kept_hits(hits@, strs(removed@), start, end, limit as nat);
            &&& r@.len() == k.len()
            &&& forall|j: int| 0 <= j < k.len() ==> 0 <= #[trigger] k[j] < hits@.len() && r@[j]@
                == summary_hit_of(hits@[k[j]]) && r@[j].hit_index == k[j]
        }),
{
    let ghost rv = strs(removed@);
    let ghost hs = hits@;
    let ghost pred = |i: int| hit_kept(hs[i], rv, start, end);
    let ghost all = positions(hits@.len());
    let mut out: Vec<AsrSummaryHit> = Vec::new();
    let ghost mut picked: Seq<int> = Seq::empty();
    let mut k: usize = 0;
    while k < hits.len()
        invariant
            k <= hits.len(),
            hs == hits@,
            rv == strs(removed@),
            all == positions(hits@.len()),
            pred == (|i: int| hit_kept(hs[i], rv, start, end)),
            picked == at_most(all.take(k as int).filter(pred), limit as nat),
            out@.len() == picked.len(),
            forall|j: int| 0 <= j < picked.len() ==> 0 <= #[trigger] picked[j] < k && out@[j]@
                == summary_hit_of(hs[picked[j]]) && out@[j].hit_index == picked[j],
        decreases hits.len() - k,
    {
        proof {
            reveal(Seq::filter);
            assert(all.take(k + 1).drop_last() =~= all.take(k as int));
            assert(all.take(k + 1).last() == k as int);
        }
        let ghost f0 = all.take(k as int).filter(pred);
        let ghost f1 = all.take(k + 1).filter(pred);
        let keep = hit_is_kept(&hits[k], removed, start, end);
        if keep && out.len() < limit {
            let h = &hits[k];
            let (title, summary_snippet) = split_title_and_snippet(h.snippet.as_str());
            let hit = AsrSummaryHit {
                record_id: h.message_id.clone(),
                title,
                summary_snippet,
                created_at_ms: h.timestamp,
                hit_index: k,
            };
            out.push(hit);
            proof {
                assert(f1 == f0.push(k as int));
                picked = picked.push(k as int);
            }
        } else if keep {
            assert(f1 == f0.push(k as int));
            assert(f1.take(limit as int) =~= f0.take(limit as int));
        } else {
            assert(f1 == f0);
        }
        k = k + 1;
    }
    assert(all.take(k as int) =~= all);
    out
}

} // verus!

verus! {

proof fn lemma_filter_increasing(s: Seq<int>, pred: spec_fn(int) -> bool, n: int)
    requires
        forall|a: int, b: int| 0 <= a < b < s.len() ==> s[a] < s[b],
        forall|i: int| 0 <= i < s.len() ==> 0 <= #[trigger] s[i] < n,
    ensures
        forall|j: int| 0 <= j < s.filter(pred).len() ==> pred(#[trigger] s.filter(pred)[j]) && 0 <= s.filter(pred)[j] < n,
        forall|a: int, b: int| 0 <= a < b < s.filter(pred).len() ==> s.filter(pred)[a] < s.filter(pred)[b],
        s.len() > 0 ==> forall|j: int| 0 <= j < s.filter(pred).len() ==> #[trigger] s.filter(pred)[j] <= s.last(),
    decreases s.len(),
{
    reveal(Seq::filter);
    if s.len() > 0 {
        let d = s.drop_last();
        lemma_filter_increasing(d, pred, n);
        let fd = d.filter(pred);
        let f = s.filter(pred);
        assert(f == if pred(s.last()) { fd.push(s.last()) } else { fd });
        if d.len() > 0 {
            assert(d.last() < s.last());
        }
        assert(s[s.len() - 1] == s.last());
    }
}

} // verus!

verus! {

/// Every record a search returns passes each filter the query gives, each
/// on its own and whatever the others: the keyword, the earliest and latest
/// creation time, the source and the status; and the results are positions
/// of the list, in increasing order.
pub proof fn lemma_search_applies_every_filter(records: Seq<AsrRecord>, q: AsrSearchQuery)
    ensures
        forall|j: int| 0 <= j < search_result(records, q).len() ==> 0 <= #[trigger] search_result(records, q)[j] < records.len(),
        forall|j: int|
            0 <= j < search_result(records, q).len() ==> (q.keyword matches Some(w) ==> record_has_keyword(
                records[#[trigger] search_result(records, q)[j]],
                lower(w@),
            )),
        forall|j: int|
            0 <= j < search_result(records, q).len() ==> (q.start_ms matches Some(s) ==> records[#[trigger] search_result(
                records,
                q,
            )[j]].created_at_ms >= s),
        forall|j: int|
            0 <= j < search_result(records, q).len() ==> (q.end_ms matches Some(e) ==> records[#[trigger] search_result(
                records,
                q,
            )[j]].created_at_ms <= e),
        forall|j: int|
            0 <= j < search_result(records, q).len() ==> (q.source matches Some(x) ==> records[#[trigger] search_result(
                records,
                q,
            )[j]].source == x),
        forall|j: int|
            0 <= j < search_result(records, q).len() ==> (q.status matches Some(y) ==> records[#[trigger] search_result(
                records,
                q,
            )[j]].status == y),
        forall|a: int, b: int|
            0 <= a < b < search_result(records, q).len() ==> search_result(records, q)[a] < search_result(
                records,
                q,
            )[b],
{
    let pred = |i: int| record_selected(records[i], q);
    let all = positions(records.len());
    let f = all.filter(pred);
    let r = search_result(records, q);
    lemma_filter_increasing(all, pred, records.len() as int);
    assert forall|j: int| 0 <= j < r.len() implies 0 <= #[trigger] r[j] < records.len() && record_selected(
        records[r[j]],
        q,
    ) by {
        assert(r[j] == f[j]);
        assert(pred(f[j]));
    }
    assert forall|a: int, b: int| 0 <= a < b < r.len() implies r[a] < r[b] by {
        assert(r[a] == f[a] && r[b] == f[b]);
    }
}

} // verus!
