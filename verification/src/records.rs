//! Snapshot-listing records: parsing the archive index's
//! `<timestamp> <originalUrl>` lines and collecting them into a map keyed
//! by timestamp, where a repeated timestamp overwrites the earlier entry.

use crate::text::{split_whitespace_tokens, tokens_of};
use crate::PipelineError;
use vstd::pervasive::VecAdditionalExecFns;
use vstd::prelude::*;

verus! {

/// One snapshot-listing record: a timestamp and the originally archived
/// URL, the two whitespace-separated tokens of an index line.
pub struct ArchiveRecord {
    pub timestamp: String,
    pub original_url: String,
}

/// The mathematical shadow of an `ArchiveRecord`.
pub ghost struct RecordView {
    pub timestamp: Seq<char>,
    pub original_url: Seq<char>,
}

impl View for ArchiveRecord {
    type V = RecordView;

    open spec fn view(&self) -> RecordView {
        RecordView { timestamp: self.timestamp@, original_url: self.original_url@ }
    }
}

impl DeepView for ArchiveRecord {
    type V = RecordView;

    open spec fn deep_view(&self) -> RecordView {
        self.view()
    }
}

/// A snapshot-listing line is well formed when it splits into exactly two
/// whitespace-separated tokens.
pub open spec fn line_wf(line: Seq<char>) -> bool {
    tokens_of(line).len() == 2
}

/// The record a well-formed line denotes.
pub open spec fn record_of_line(line: Seq<char>) -> RecordView {
    RecordView { timestamp: tokens_of(line)[0], original_url: tokens_of(line)[1] }
}

/// The records denoted by a sequence of well-formed lines.
pub open spec fn records_of(lines: Seq<Seq<char>>) -> Seq<RecordView> {
    lines.map_values(|l: Seq<char>| record_of_line(l))
}

/// One line parsed into a record; `None` exactly on a malformed line.
pub fn parse_snapshot_line(line: &str) -> (r: Option<ArchiveRecord>)
    ensures
        r is Some <==> line_wf(line@),
        r matches Some(rec) ==> rec@ == record_of_line(line@),
{
    let mut toks = split_whitespace_tokens(line);
    if toks.len() == 2 {
        proof {
            assert(toks.deep_view()[0] == tokens_of(line@)[0]);
            assert(toks.deep_view()[1] == tokens_of(line@)[1]);
        }
        let url = match toks.pop() {
            Some(t) => t,
            None => {
                return None;
            },
        };
        let ts = match toks.pop() {
            Some(t) => t,
            None => {
                return None;
            },
        };
        Some(ArchiveRecord { timestamp: ts, original_url: url })
    } else {
        None
    }
}

/// No two entries share a timestamp.
pub open spec fn distinct_timestamps(s: Seq<RecordView>) -> bool {
    forall|i: int, j: int|
        0 <= i < j < s.len() ==> s[i].timestamp != s[j].timestamp
}

/// `s` with `r` inserted under its timestamp: the first entry with the
/// same timestamp is overwritten in place; otherwise `r` goes to the end.
pub open spec fn insert_record(s: Seq<RecordView>, r: RecordView) -> Seq<RecordView>
    decreases s.len(),
{
    if s.len() == 0 {
        seq![r]
    } else if s[0].timestamp == r.timestamp {
        seq![r] + s.drop_first()
    } else {
        seq![s[0]] + insert_record(s.drop_first(), r)
    }
}

/// The map the records build up, in listing order: each record inserted
/// over those before it, so a repeated timestamp overwrites.
pub open spec fn map_of_records(rs: Seq<RecordView>) -> Seq<RecordView>
    decreases rs.len(),
{
    if rs.len() == 0 {
        Seq::empty()
    } else {
        insert_record(map_of_records(rs.drop_last()), rs.last())
    }
}

/// The URL stored under `ts`, the last inserted one winning.
pub open spec fn lookup(s: Seq<RecordView>, ts: Seq<char>) -> Option<Seq<char>>
    decreases s.len(),
{
    if s.len() == 0 {
        None
    } else if s.last().timestamp == ts {
        Some(s.last().original_url)
    } else {
        lookup(s.drop_last(), ts)
    }
}

/// Inserting under a timestamp that occurs first at position `i`
/// overwrites that position.
proof fn lemma_insert_record_update(s: Seq<RecordView>, r: RecordView, i: int)
    requires
        0 <= i < s.len(),
        s[i].timestamp == r.timestamp,
        forall|k: int| 0 <= k < i ==> s[k].timestamp != r.timestamp,
    ensures
        insert_record(s, r) == s.update(i, r),
    decreases s.len(),
{
    if i == 0 {
        assert(seq![r] + s.drop_first() =~= s.update(0, r));
    } else {
        let t = s.drop_first();
        assert(forall|k: int| 0 <= k < i - 1 ==> t[k].timestamp != r.timestamp);
        lemma_insert_record_update(t, r, i - 1);
        assert(seq![s[0]] + t.update(i - 1, r) =~= s.update(i, r));
    }
}

/// Inserting under a fresh timestamp appends.
proof fn lemma_insert_record_push(s: Seq<RecordView>, r: RecordView)
    requires
        forall|k: int| 0 <= k < s.len() ==> s[k].timestamp != r.timestamp,
    ensures
        insert_record(s, r) == s.push(r),
    decreases s.len(),
{
    if s.len() == 0 {
        assert(seq![r] =~= s.push(r));
    } else {
        let t = s.drop_first();
        lemma_insert_record_push(t, r);
        assert(seq![s[0]] + t.push(r) =~= s.push(r));
    }
}

/// A map from timestamps to archived URLs that also remembers insertion
/// order, as the fetch loops walk it front to back.
pub struct SnapshotMap {
    entries: Vec<ArchiveRecord>,
}

impl View for SnapshotMap {
    type V = Seq<RecordView>;

    closed spec fn view(&self) -> Seq<RecordView> {
        self.entries.deep_view()
    }
}

impl SnapshotMap {
    /// The map never holds two entries with one timestamp.
    pub open spec fn wf(&self) -> bool {
        distinct_timestamps(self@)
    }

    pub fn new() -> (r: Self)
        ensures
            r@ == Seq::<RecordView>::empty(),
            r.wf(),
    {
        let r = SnapshotMap { entries: Vec::new() };
        proof {
            assert(r@ =~= Seq::<RecordView>::empty());
        }
        r
    }

    pub fn len(&self) -> (r: usize)
        ensures
            r == self@.len(),
    {
        self.entries.len()
    }

    pub fn get(&self, i: usize) -> (r: &ArchiveRecord)
        requires
            i < self@.len(),
        ensures
            r@ == self@[i as int],
    {
        &self.entries[i]
    }

    /// Insert a record: an entry with the same timestamp is overwritten in
    /// place, a fresh timestamp goes to the end.
    pub fn insert(&mut self, r: ArchiveRecord)
        requires
            old(self).wf(),
        ensures
            final(self)@ == insert_record(old(self)@, r@),
            final(self).wf(),
    {
        let n = self.entries.len();
        let mut i: usize = 0;
        while i < n
            invariant
                n == self@.len(),
                i <= n,
                self@ == old(self)@,
                self.wf(),
                forall|k: int| 0 <= k < i ==> self@[k].timestamp != r@.timestamp,
            decreases n - i,
        {
            let same = self.entries[i].timestamp == r.timestamp;
            if same {
                proof {
                    lemma_insert_record_update(self@, r@, i as int);
                }
                self.entries.set(i, r);
                proof {
                    assert(self@ =~= old(self)@.update(i as int, r@));
                    assert(r@.timestamp == old(self)@[i as int].timestamp);
                    assert forall|a: int, b: int|
                        0 <= a < b < self@.len() implies self@[a].timestamp
                        != self@[b].timestamp by {
                        assert(old(self)@[a].timestamp != old(self)@[b].timestamp);
                        if a == i as int {
                            assert(self@[a].timestamp == old(self)@[a].timestamp);
                        }
                        if b == i as int {
                            assert(self@[b].timestamp == old(self)@[b].timestamp);
                        }
                    }
                }
                return;
            }
            i = i + 1;
        }
        proof {
            lemma_insert_record_push(self@, r@);
        }
        self.entries.push(r);
        proof {
            assert(self@ =~= old(self)@.push(r@));
        }
    }
}

/// Every snapshot-listing line parsed and inserted in listing order.  One
/// malformed line is fatal to the whole listing — a stricter policy than
/// the per-fetch one — and the first such line is reported.
pub fn parse_snapshot_lines(lines: &Vec<String>) -> (r: Result<SnapshotMap, PipelineError>)
    ensures
        r is Ok <==> (forall|i: int|
            0 <= i < lines.deep_view().len() ==> line_wf(lines.deep_view()[i])),
        r matches Ok(m) ==> m@ == map_of_records(records_of(lines.deep_view())) && m.wf(),
        r matches Err(e) ==> (exists|i: int|
            {
                &&& 0 <= i < lines.deep_view().len()
                &&& !line_wf(lines.deep_view()[i])
                &&& (forall|j: int| 0 <= j < i ==> line_wf(lines.deep_view()[j]))
                &&& e matches PipelineError::Parse(bad) && bad@ == lines.deep_view()[i]
            }),
{
    let ghost l = lines.deep_view();
    let n = lines.len();
    let mut m = SnapshotMap::new();
    let mut i: usize = 0;
    proof {
        assert(records_of(l.take(0)) =~= Seq::<RecordView>::empty());
    }
    while i < n
        invariant
            n == l.len(),
            l == lines.deep_view(),
            i <= n,
            forall|j: int| 0 <= j < i ==> line_wf(l[j]),
            m@ == map_of_records(records_of(l.take(i as int))),
            m.wf(),
        decreases n - i,
    {
        let line: &String = &lines[i];
        proof {
            assert(line@ == l[i as int]);
        }
        match parse_snapshot_line(line.as_str()) {
            Some(rec) => {
                let ghost prev = m@;
                m.insert(rec);
                proof {
                    let rs1 = records_of(l.take(i + 1));
                    assert(rs1.drop_last() =~= records_of(l.take(i as int)));
                    assert(rs1.last() == record_of_line(l[i as int]));
                    assert(m@ == insert_record(map_of_records(rs1.drop_last()), rs1.last()));
                }
                i = i + 1;
            },
            None => {
                return Err(PipelineError::Parse(line.clone()));
            },
        }
    }
    proof {
        assert(l.take(n as int) =~= l);
    }
    Ok(m)
}

/// Inserting preserves distinctness of timestamps.
proof fn lemma_insert_record_distinct(s: Seq<RecordView>, r: RecordView)
    requires
        distinct_timestamps(s),
    ensures
        distinct_timestamps(insert_record(s, r)),
{
    if exists|k: int| 0 <= k < s.len() && s[k].timestamp == r.timestamp {
        let i = choose|k: int| 0 <= k < s.len() && s[k].timestamp == r.timestamp;
        assert forall|k: int| 0 <= k < i implies s[k].timestamp != r.timestamp by {
            assert(s[k].timestamp != s[i].timestamp);
        }
        lemma_insert_record_update(s, r, i);
        let u = s.update(i, r);
        assert forall|a: int, b: int|
            0 <= a < b < u.len() implies u[a].timestamp != u[b].timestamp by {
            assert(s[a].timestamp != s[b].timestamp);
        }
    } else {
        assert(forall|k: int| 0 <= k < s.len() ==> s[k].timestamp != r.timestamp);
        lemma_insert_record_push(s, r);
        let u = s.push(r);
        assert forall|a: int, b: int|
            0 <= a < b < u.len() implies u[a].timestamp != u[b].timestamp by {
            if b == s.len() as int {
                assert(s[a].timestamp != r.timestamp);
            } else {
                assert(s[a].timestamp != s[b].timestamp);
            }
        }
    }
}

/// The record map built from any listing has distinct timestamps.
pub proof fn lemma_map_of_records_distinct(rs: Seq<RecordView>)
    ensures
        distinct_timestamps(map_of_records(rs)),
    decreases rs.len(),
{
    if rs.len() == 0 {
    } else {
        lemma_map_of_records_distinct(rs.drop_last());
        lemma_insert_record_distinct(map_of_records(rs.drop_last()), rs.last());
    }
}

/// When position `i` holds `ts` and nothing after it does, the lookup
/// lands there.
proof fn lemma_lookup_at(s: Seq<RecordView>, ts: Seq<char>, i: int)
    requires
        0 <= i < s.len(),
        s[i].timestamp == ts,
        forall|k: int| i < k < s.len() ==> s[k].timestamp != ts,
    ensures
        lookup(s, ts) == Some(s[i].original_url),
    decreases s.len(),
{
    if i == s.len() - 1 {
    } else {
        assert(s.last().timestamp != ts);
        let t = s.drop_last();
        assert(t[i] == s[i]);
        assert(forall|k: int| i < k < t.len() ==> t[k].timestamp != ts);
        lemma_lookup_at(t, ts, i);
    }
}

/// Updating a position whose timestamp is not `ts`, with a record whose
/// timestamp is not `ts` either, leaves the lookup of `ts` unchanged.
proof fn lemma_lookup_update_other(s: Seq<RecordView>, i: int, r: RecordView, ts: Seq<char>)
    requires
        0 <= i < s.len(),
        s[i].timestamp != ts,
        r.timestamp != ts,
    ensures
        lookup(s.update(i, r), ts) == lookup(s, ts),
    decreases s.len(),
{
    let u = s.update(i, r);
    if i == s.len() - 1 {
        assert(u.last() == r);
        assert(u.drop_last() =~= s.drop_last());
    } else {
        assert(u.last() == s.last());
        if s.last().timestamp == ts {
        } else {
            assert(u.drop_last() =~= s.drop_last().update(i, r));
            assert(s.drop_last()[i] == s[i]);
            lemma_lookup_update_other(s.drop_last(), i, r, ts);
        }
    }
}

/// Looking up the timestamp just inserted finds the inserted URL.
proof fn lemma_lookup_insert_same(s: Seq<RecordView>, r: RecordView)
    requires
        distinct_timestamps(s),
    ensures
        lookup(insert_record(s, r), r.timestamp) == Some(r.original_url),
{
    if exists|k: int| 0 <= k < s.len() && s[k].timestamp == r.timestamp {
        let i = choose|k: int| 0 <= k < s.len() && s[k].timestamp == r.timestamp;
        assert forall|k: int| 0 <= k < i implies s[k].timestamp != r.timestamp by {
            assert(s[k].timestamp != s[i].timestamp);
        }
        lemma_insert_record_update(s, r, i);
        let u = s.update(i, r);
        assert(u[i] == r);
        assert forall|k: int| i < k < u.len() implies u[k].timestamp != r.timestamp by {
            assert(s[i].timestamp != s[k].timestamp);
        }
        lemma_lookup_at(u, r.timestamp, i);
    } else {
        lemma_insert_record_push(s, r);
        let u = s.push(r);
        assert(u.last() == r);
    }
}

/// Inserting a record under another timestamp leaves the lookup of `ts`
/// unchanged.
proof fn lemma_lookup_insert_other(s: Seq<RecordView>, r: RecordView, ts: Seq<char>)
    requires
        distinct_timestamps(s),
        r.timestamp != ts,
    ensures
        lookup(insert_record(s, r), ts) == lookup(s, ts),
{
    if exists|k: int| 0 <= k < s.len() && s[k].timestamp == r.timestamp {
        let i = choose|k: int| 0 <= k < s.len() && s[k].timestamp == r.timestamp;
        assert forall|k: int| 0 <= k < i implies s[k].timestamp != r.timestamp by {
            assert(s[k].timestamp != s[i].timestamp);
        }
        lemma_insert_record_update(s, r, i);
        lemma_lookup_update_other(s, i, r, ts);
    } else {
        lemma_insert_record_push(s, r);
        let u = s.push(r);
        assert(u.last() == r);
        assert(u.drop_last() =~= s);
    }
}

/// Law: among records sharing a timestamp, the map keeps exactly the last
/// one in listing order — a repeated timestamp overwrites, never
/// duplicates.
pub proof fn lemma_timestamp_last_wins(rs: Seq<RecordView>, j: int)
    requires
        0 <= j < rs.len(),
        forall|k: int| j < k < rs.len() ==> rs[k].timestamp != rs[j].timestamp,
    ensures
        lookup(map_of_records(rs), rs[j].timestamp) == Some(rs[j].original_url),
    decreases rs.len(),
{
    let m = map_of_records(rs.drop_last());
    lemma_map_of_records_distinct(rs.drop_last());
    if j == rs.len() - 1 {
        assert(rs.last() == rs[j]);
        lemma_lookup_insert_same(m, rs.last());
    } else {
        let t = rs.drop_last();
        assert(t[j] == rs[j]);
        assert(forall|k: int| j < k < t.len() ==> t[k].timestamp != t[j].timestamp);
        lemma_timestamp_last_wins(t, j);
        assert(rs.last().timestamp != rs[j].timestamp);
        lemma_lookup_insert_other(m, rs.last(), rs[j].timestamp);
    }
}

} // verus!
