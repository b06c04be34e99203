//! The retained SQL observations: the bounded log of slow statements, the
//! bounded log of N+1 suspects, and the snapshot that summarizes and ranks
//! them.
use vstd::prelude::*;

use crate::ast::{trim, trimmed};
use crate::config::{DatabaseConfig, ObservabilityConfig};
use crate::lifecycle::{sorted_insert, strictly_sorted, views_of};
use crate::observability::{fingerprint, redacted, sql_fingerprint, sql_for_observability, SlowQueryEntry};
use crate::text::{lemma_seq_lt_irreflexive, lemma_seq_lt_total, lemma_seq_lt_transitive, owned, seq_lt, str_eq, str_less};

verus! {

/// The last `k` items of `s`, all of them when there are fewer.
pub open spec fn keep_last<T>(s: Seq<T>, k: nat) -> Seq<T> {
    if s.len() > k {
        s.subrange(s.len() - k, s.len() as int)
    } else {
        s
    }
}

/// A bounded log keeps at most its retention, its newest entry last, and
/// always a suffix of everything recorded.
pub proof fn law_bounded_log_keeps_newest<T>(log: Seq<T>, entry: T, retention: nat)
    requires
        retention > 0,
    ensures
        keep_last(log.push(entry), retention).len() <= retention,
        keep_last(log.push(entry), retention).last() == entry,
        keep_last(log.push(entry), retention).is_suffix_of(log.push(entry)),
{
    let full = log.push(entry);
    let kept = keep_last(full, retention);
    assert(kept =~= full.subrange(full.len() - kept.len(), full.len() as int));
}

/// The slow statements retained so far, oldest first.
#[derive(Debug)]
pub struct SlowQueryLog {
    entries: Vec<SlowQueryEntry>,
}

impl View for SlowQueryLog {
    type V = Seq<SlowQueryEntry>;

    closed spec fn view(&self) -> Seq<SlowQueryEntry> {
        self.entries@
    }
}

/// Copies of the entries, in order.
fn copy_entries(entries: &Vec<SlowQueryEntry>, from: usize) -> (r: Vec<SlowQueryEntry>)
    requires
        from <= entries@.len(),
    ensures
        r@ == entries@.subrange(from as int, entries@.len() as int),
{
    let mut out: Vec<SlowQueryEntry> = Vec::new();
    let mut i = from;
    while i < entries.len()
        invariant
            from <= i <= entries@.len(),
            out@ == entries@.subrange(from as int, i as int),
        decreases entries@.len() - i,
    {
        let e = entries[i].clone();
        out.push(e);
        proof {
            assert(entries@.subrange(from as int, i + 1) =~= entries@.subrange(from as int, i as int).push(entries@[i as int]));
        }
        i = i + 1;
    }
    out
}

impl SlowQueryLog {
    pub fn new() -> (r: Self)
        ensures
            r@ == Seq::<SlowQueryEntry>::empty(),
    {
        SlowQueryLog { entries: Vec::new() }
    }

    /// Keeps an entry, dropping the oldest ones so that at most `retention`
    /// remain; with no retention nothing is kept.
    pub fn record(&mut self, entry: SlowQueryEntry, retention: usize)
        ensures
            retention == 0 ==> final(self)@ == old(self)@,
            retention > 0 ==> final(self)@ == keep_last(old(self)@.push(entry), retention as nat),
    {
        if retention == 0 {
            return;
        }
        let ghost s0 = self@;
        let ghost mut dropped: int = 0;
        while self.entries.len() >= retention
            invariant
                retention > 0,
                0 <= dropped <= s0.len(),
                self.entries@ == s0.subrange(dropped, s0.len() as int),
                dropped == 0 || self.entries@.len() + 1 >= retention,
            decreases self.entries@.len(),
        {
            self.entries.remove(0);
            proof {
                dropped = dropped + 1;
                assert(self.entries@ =~= s0.subrange(dropped, s0.len() as int));
            }
        }
        self.entries.push(entry);
        proof {
            let full = s0.push(entry);
            if dropped > 0 {
                assert(full.len() > retention);
                assert(self.entries@ =~= full.subrange(full.len() - retention, full.len() as int));
            } else {
                assert(self.entries@ =~= full);
            }
        }
    }

    /// Keeps a slow statement, redacted when asked, with its duration,
    /// label, request and trace ids and recording time (see `record`).
    pub fn record_query(
        &mut self,
        sql: &str,
        duration_ms: u64,
        label: Option<&str>,
        retention: usize,
        redact_literals: bool,
        request_id: Option<String>,
        trace_id: Option<String>,
        recorded_at: String,
    )
        ensures
            retention == 0 ==> final(self)@ == old(self)@,
            retention > 0 ==> exists|e: SlowQueryEntry|
                final(self)@ == keep_last(old(self)@.push(e), retention as nat) && e.sql@ == (if redact_literals {
                    crate::observability::redacted(sql@)
                } else {
                    sql@
                }) && e.duration_ms == duration_ms && (match label {
                    Some(l) => e.label matches Some(x) && x@ == l@,
                    None => e.label is None,
                }) && e.request_id == request_id && e.trace_id == trace_id && e.recorded_at == recorded_at,
    {
        if retention == 0 {
            return;
        }
        let label = match label {
            Some(l) => Some(owned(l)),
            None => None,
        };
        let entry = SlowQueryEntry {
            sql: sql_for_observability(sql, redact_literals),
            duration_ms,
            label,
            request_id,
            trace_id,
            recorded_at,
        };
        let ghost e = entry;
        self.record(entry, retention);
        proof {
            assert(self@ == keep_last(old(self)@.push(e), retention as nat) && e.sql@ == (if redact_literals {
                crate::observability::redacted(sql@)
            } else {
                sql@
            }) && e.duration_ms == duration_ms && (match label {
                Some(l) => e.label matches Some(x) && x@ == l@,
                None => e.label is None,
            }) && e.request_id == request_id && e.trace_id == trace_id && e.recorded_at == recorded_at);
        }
    }

    /// Every retained entry, oldest first.
    pub fn recent(&self) -> (r: Vec<SlowQueryEntry>)
        ensures
            r@ == self@,
    {
        let r = copy_entries(&self.entries, 0);
        proof {
            assert(self.entries@.subrange(0, self.entries@.len() as int) =~= self.entries@);
        }
        r
    }

    /// The last `retention` entries, oldest first; none without retention.
    pub fn recent_with_retention(&self, retention: usize) -> (r: Vec<SlowQueryEntry>)
        ensures
            r@ == keep_last(self@, retention as nat),
    {
        let n = self.entries.len();
        let from = if n > retention { n - retention } else { 0 };
        let r = copy_entries(&self.entries, from);
        proof {
            if n <= retention {
                assert(self.entries@.subrange(0, n as int) =~= self.entries@);
            }
        }
        r
    }
}

// ---------------------------------------------------------------------------
// Ranking slow statements
// ---------------------------------------------------------------------------

/// `a` is slower than `b`, or as slow and recorded later.
pub open spec fn slow_outranks(a: SlowQueryEntry, b: SlowQueryEntry) -> bool {
    a.duration_ms > b.duration_ms || (a.duration_ms == b.duration_ms && seq_lt(b.recorded_at@, a.recorded_at@))
}

/// No entry outranks one before it.
pub open spec fn slowest_first(s: Seq<SlowQueryEntry>) -> bool {
    forall|i: int, j: int| 0 <= i < j < s.len() ==> !slow_outranks(#[trigger] s[j], #[trigger] s[i])
}

proof fn lemma_slow_outranks_order(a: SlowQueryEntry, b: SlowQueryEntry, c: SlowQueryEntry)
    ensures
        slow_outranks(a, b) ==> !slow_outranks(b, a),
        slow_outranks(a, b) && slow_outranks(b, c) ==> slow_outranks(a, c),
        !slow_outranks(a, b) && !slow_outranks(b, c) ==> !slow_outranks(a, c),
{
    if slow_outranks(a, b) && slow_outranks(b, a) {
        lemma_seq_lt_transitive(a.recorded_at@, b.recorded_at@, a.recorded_at@);
        lemma_seq_lt_irreflexive(a.recorded_at@);
    }
    if slow_outranks(a, b) && slow_outranks(b, c) && a.duration_ms == c.duration_ms {
        lemma_seq_lt_transitive(c.recorded_at@, b.recorded_at@, a.recorded_at@);
    }
    if !slow_outranks(a, b) && !slow_outranks(b, c) && slow_outranks(a, c) {
        if a.recorded_at@ != b.recorded_at@ {
            lemma_seq_lt_total(a.recorded_at@, b.recorded_at@);
        }
        if b.recorded_at@ != c.recorded_at@ {
            lemma_seq_lt_total(b.recorded_at@, c.recorded_at@);
        }
        if a.duration_ms == b.duration_ms && b.duration_ms == c.duration_ms && a.recorded_at@ != b.recorded_at@
            && b.recorded_at@ != c.recorded_at@ {
            lemma_seq_lt_transitive(c.recorded_at@, a.recorded_at@, b.recorded_at@);
        }
    }
}

fn outranks(a: &SlowQueryEntry, b: &SlowQueryEntry) -> (r: bool)
    ensures
        r == slow_outranks(*a, *b),
{
    a.duration_ms > b.duration_ms || (a.duration_ms == b.duration_ms && str_less(b.recorded_at.as_str(), a.recorded_at.as_str()))
}

/// Where a ranking places `x`: before the first entry it outranks.
pub open spec fn rank_position(s: Seq<SlowQueryEntry>, x: SlowQueryEntry) -> int
    decreases s.len(),
{
    if s.len() == 0 {
        0
    } else if slow_outranks(x, s[0]) {
        0
    } else {
        1 + rank_position(s.drop_first(), x)
    }
}

/// The ranking of entries, slowest first, built by placing each entry in
/// turn before the first one it outranks: entries that tie keep the order
/// they came in.
pub open spec fn ranked(s: Seq<SlowQueryEntry>) -> Seq<SlowQueryEntry>
    decreases s.len(),
{
    if s.len() == 0 {
        Seq::empty()
    } else {
        let r = ranked(s.drop_last());
        r.insert(rank_position(r, s.last()), s.last())
    }
}

proof fn lemma_rank_position(s: Seq<SlowQueryEntry>, x: SlowQueryEntry, p: int)
    requires
        0 <= p <= s.len(),
        forall|i: int| 0 <= i < p ==> !slow_outranks(x, #[trigger] s[i]),
        p == s.len() || slow_outranks(x, s[p]),
    ensures
        rank_position(s, x) == p,
    decreases p,
{
    if p > 0 {
        let t = s.drop_first();
        assert forall|i: int| 0 <= i < p - 1 implies !slow_outranks(x, #[trigger] t[i]) by {
            assert(t[i] == s[i + 1]);
        }
        if p < s.len() {
            assert(t[p - 1] == s[p]);
        }
        lemma_rank_position(t, x, p - 1);
    }
}

/// The entries reordered slowest first, the latest first among equally
/// slow ones.
pub fn rank_slowest_first(entries: Vec<SlowQueryEntry>) -> (r: Vec<SlowQueryEntry>)
    ensures
        r@ == ranked(entries@),
        r@.to_multiset() == entries@.to_multiset(),
        slowest_first(r@),
{
    broadcast use vstd::seq_lib::group_to_multiset_ensures;
    let ghost all = entries@;
    let mut out: Vec<SlowQueryEntry> = Vec::new();
    let mut rest = entries;
    let mut reversed: Vec<SlowQueryEntry> = Vec::new();
    while rest.len() > 0
        invariant
            reversed@.len() + rest@.len() == all.len(),
            rest@ == all.subrange(0, rest@.len() as int),
            forall|i: int| 0 <= i < reversed@.len() ==> reversed@[i] == all[all.len() - 1 - i],
        decreases rest@.len(),
    {
        let e = rest.pop().unwrap();
        reversed.push(e);
    }
    proof {
        assert(all.subrange(0, 0) =~= Seq::<SlowQueryEntry>::empty());
    }
    while reversed.len() > 0
        invariant
            out@.len() + reversed@.len() == all.len(),
            forall|i: int| 0 <= i < reversed@.len() ==> reversed@[i] == all[all.len() - 1 - i],
            out@.to_multiset() == all.subrange(0, all.len() - reversed@.len()).to_multiset(),
            out@ == ranked(all.subrange(0, all.len() - reversed@.len())),
            slowest_first(out@),
        decreases reversed@.len(),
    {
        let ghost k: int = all.len() - reversed@.len();
        let x = reversed.pop().unwrap();
        proof {
            assert(x == all[k]);
        }
        let mut p: usize = 0;
        while p < out.len() && !outranks(&x, &out[p])
            invariant
                p <= out@.len(),
                forall|i: int| 0 <= i < p ==> !slow_outranks(x, #[trigger] out@[i]),
            decreases out@.len() - p,
        {
            p = p + 1;
        }
        let ghost before = out@;
        proof {
            lemma_rank_position(before, x, p as int);
            let q = all.subrange(0, k + 1);
            assert(q.drop_last() =~= all.subrange(0, k));
            assert(q.last() == x);
        }
        out.insert(p, x);
        proof {
            assert(all.subrange(0, k + 1) =~= all.subrange(0, k).push(x));
            vstd::seq_lib::to_multiset_insert(before, p as int, x);
            vstd::seq_lib::to_multiset_build(all.subrange(0, k), x);
            assert(out@ == before.insert(p as int, x));
            assert(out@.to_multiset() == all.subrange(0, k + 1).to_multiset());
            assert forall|i: int, j: int| 0 <= i < j < out@.len() implies !slow_outranks(#[trigger] out@[j], #[trigger] out@[i]) by {
                if j < p {
                    assert(out@[i] == before[i] && out@[j] == before[j]);
                } else if j == p {
                    assert(out@[i] == before[i]);
                } else if i == p {
                    assert(out@[j] == before[j - 1]);
                    lemma_slow_outranks_order(x, before[p as int], before[j - 1]);
                    lemma_slow_outranks_order(before[j - 1], x, before[p as int]);
                    if j - 1 > p {
                        assert(!slow_outranks(before[j - 1], before[p as int]));
                    }
                } else if i < p {
                    assert(out@[i] == before[i] && out@[j] == before[j - 1]);
                } else {
                    assert(out@[i] == before[i - 1] && out@[j] == before[j - 1]);
                }
            }
        }
    }
    proof {
        assert(all.subrange(0, all.len() as int) =~= all);
    }
    out
}

// ---------------------------------------------------------------------------
// N+1 suspects
// ---------------------------------------------------------------------------

/// A statement repeated within one HTTP request often enough to suggest an
/// N+1 query pattern, with its totals.
#[derive(Debug, PartialEq, Eq)]
pub struct NPlusOneSuspect {
    pub method: String,
    pub path: String,
    pub request_id: Option<String>,
    pub trace_id: Option<String>,
    pub fingerprint: String,
    pub repeat_count: u64,
    pub total_duration_ms: u64,
    pub max_duration_ms: u64,
    pub avg_duration_ms: u64,
    pub rows_total: u64,
    pub labels: Vec<String>,
    pub kinds: Vec<String>,
    pub sample_sql: String,
    pub first_recorded_at: String,
    pub latest_recorded_at: String,
}

/// Two suspects with the same fields; their lists hold the same strings.
pub open spec fn same_suspect(a: NPlusOneSuspect, b: NPlusOneSuspect) -> bool {
    &&& a.method == b.method
    &&& a.path == b.path
    &&& a.request_id == b.request_id
    &&& a.trace_id == b.trace_id
    &&& a.fingerprint == b.fingerprint
    &&& a.repeat_count == b.repeat_count
    &&& a.total_duration_ms == b.total_duration_ms
    &&& a.max_duration_ms == b.max_duration_ms
    &&& a.avg_duration_ms == b.avg_duration_ms
    &&& a.rows_total == b.rows_total
    &&& a.labels@ == b.labels@
    &&& a.kinds@ == b.kinds@
    &&& a.sample_sql == b.sample_sql
    &&& a.first_recorded_at == b.first_recorded_at
    &&& a.latest_recorded_at == b.latest_recorded_at
}

/// Two lists of suspects that match one for one.
pub open spec fn same_suspects(a: Seq<NPlusOneSuspect>, b: Seq<NPlusOneSuspect>) -> bool {
    a.len() == b.len() && forall|i: int| 0 <= i < a.len() ==> same_suspect(#[trigger] a[i], b[i])
}

fn copy_strings(v: &Vec<String>) -> (r: Vec<String>)
    ensures
        r@ == v@,
{
    let mut out: Vec<String> = Vec::new();
    let mut i: usize = 0;
    while i < v.len()
        invariant
            i <= v@.len(),
            out@ == v@.subrange(0, i as int),
        decreases v@.len() - i,
    {
        out.push(v[i].clone());
        proof {
            assert(v@.subrange(0, i + 1) =~= v@.subrange(0, i as int).push(v@[i as int]));
        }
        i = i + 1;
    }
    proof {
        assert(v@.subrange(0, v@.len() as int) =~= v@);
    }
    out
}

impl NPlusOneSuspect {
    /// A copy with the same fields.
    pub fn copy(&self) -> (r: NPlusOneSuspect)
        ensures
            same_suspect(r, *self),
    {
        NPlusOneSuspect {
            method: self.method.clone(),
            path: self.path.clone(),
            request_id: self.request_id.clone(),
            trace_id: self.trace_id.clone(),
            fingerprint: self.fingerprint.clone(),
            repeat_count: self.repeat_count,
            total_duration_ms: self.total_duration_ms,
            max_duration_ms: self.max_duration_ms,
            avg_duration_ms: self.avg_duration_ms,
            rows_total: self.rows_total,
            labels: copy_strings(&self.labels),
            kinds: copy_strings(&self.kinds),
            sample_sql: self.sample_sql.clone(),
            first_recorded_at: self.first_recorded_at.clone(),
            latest_recorded_at: self.latest_recorded_at.clone(),
        }
    }
}

proof fn lemma_keep_last_push<T>(s: Seq<T>, x: T, k: nat)
    requires
        k > 0,
    ensures
        keep_last(keep_last(s, k).push(x), k) == keep_last(s.push(x), k),
{
    if s.len() > k {
        assert(keep_last(s, k).push(x).subrange(1, k as int + 1) =~= s.push(x).subrange(s.len() + 1 - k, s.len() as int + 1));
    }
}

/// The N+1 suspects retained so far, oldest first.
#[derive(Debug)]
pub struct NPlusOneLog {
    suspects: Vec<NPlusOneSuspect>,
}

impl View for NPlusOneLog {
    type V = Seq<NPlusOneSuspect>;

    closed spec fn view(&self) -> Seq<NPlusOneSuspect> {
        self.suspects@
    }
}

impl NPlusOneLog {
    pub fn new() -> (r: Self)
        ensures
            r@ == Seq::<NPlusOneSuspect>::empty(),
    {
        NPlusOneLog { suspects: Vec::new() }
    }

    /// Keeps the suspects in order, dropping the oldest so that at most
    /// `retention` remain; nothing changes without suspects or retention.
    pub fn record_suspects(&mut self, suspects: Vec<NPlusOneSuspect>, retention: usize)
        ensures
            suspects@.len() == 0 || retention == 0 ==> final(self)@ == old(self)@,
            suspects@.len() > 0 && retention > 0 ==> final(self)@ == keep_last(old(self)@ + suspects@, retention as nat),
    {
        if suspects.len() == 0 || retention == 0 {
            return;
        }
        let ghost s0 = self@;
        let ghost all = suspects@;
        let mut rest = suspects;
        let mut reversed: Vec<NPlusOneSuspect> = Vec::new();
        while rest.len() > 0
            invariant
                reversed@.len() + rest@.len() == all.len(),
                rest@ == all.subrange(0, rest@.len() as int),
                forall|i: int| 0 <= i < reversed@.len() ==> reversed@[i] == all[all.len() - 1 - i],
            decreases rest@.len(),
        {
            let x = rest.pop().unwrap();
            reversed.push(x);
        }
        proof {
            assert(s0 + all.subrange(0, 0) =~= s0);
            assert(s0.len() <= retention ==> keep_last(s0, retention as nat) == s0);
        }
        let mut first = true;
        while reversed.len() > 0
            invariant
                retention > 0,
                forall|i: int| 0 <= i < reversed@.len() ==> reversed@[i] == all[all.len() - 1 - i],
                reversed@.len() <= all.len(),
                first ==> reversed@.len() == all.len() && self@ == s0,
                !first ==> self@ == keep_last(s0 + all.subrange(0, all.len() - reversed@.len()), retention as nat),
            decreases reversed@.len(),
        {
            let ghost k: int = all.len() - reversed@.len();
            let ghost before = self@;
            let x = reversed.pop().unwrap();
            proof {
                assert(x == all[k]);
            }
            self.suspects.push(x);
            let ghost mut dropped: int = 0;
            while self.suspects.len() > retention
                invariant
                    0 <= dropped <= before.len() + 1,
                    self.suspects@ == before.push(x).subrange(dropped, before.len() as int + 1),
                    dropped == 0 || self.suspects@.len() >= retention,
                decreases self.suspects@.len(),
            {
                self.suspects.remove(0);
                proof {
                    dropped = dropped + 1;
                    assert(self.suspects@ =~= before.push(x).subrange(dropped, before.len() as int + 1));
                }
            }
            proof {
                let full = before.push(x);
                if dropped > 0 {
                    assert(self@ =~= full.subrange(full.len() - retention, full.len() as int));
                } else {
                    assert(self@ =~= full);
                }
                assert(self@ == keep_last(full, retention as nat));
                assert(s0 + all.subrange(0, k + 1) =~= (s0 + all.subrange(0, k)).push(x));
                if first {
                    assert(s0 + all.subrange(0, k) =~= s0);
                    if s0.len() > retention {
                        lemma_keep_last_push(s0, x, retention as nat);
                    }
                } else {
                    lemma_keep_last_push(s0 + all.subrange(0, k), x, retention as nat);
                }
            }
            first = false;
        }
        proof {
            assert(all.subrange(0, all.len() as int) =~= all);
        }
    }

    /// Every retained suspect, oldest first.
    pub fn recent(&self) -> (r: Vec<NPlusOneSuspect>)
        ensures
            same_suspects(r@, self@),
    {
        let mut out: Vec<NPlusOneSuspect> = Vec::new();
        let mut i: usize = 0;
        while i < self.suspects.len()
            invariant
                i <= self.suspects@.len(),
                out@.len() == i,
                forall|j: int| 0 <= j < i ==> same_suspect(#[trigger] out@[j], self.suspects@[j]),
            decreases self.suspects@.len() - i,
        {
            out.push(self.suspects[i].copy());
            i = i + 1;
        }
        out
    }
}

// ---------------------------------------------------------------------------
// Snapshot
// ---------------------------------------------------------------------------

/// The figures of a snapshot.
#[derive(Debug, PartialEq, Eq)]
pub struct SqlObservabilityStats {
    pub retained_count: usize,
    pub capacity: usize,
    pub slow_query_threshold_ms: u64,
    pub max_duration_ms: Option<u64>,
    pub avg_duration_ms: Option<u64>,
    pub latest_recorded_at: Option<String>,
    pub n_plus_one_suspect_count: usize,
}

/// The retained slow statements, ranked and summarized, with the retained
/// N+1 suspects.
#[derive(Debug, PartialEq, Eq)]
pub struct SqlObservabilitySnapshot {
    pub stats: SqlObservabilityStats,
    pub top_slowest: Vec<SlowQueryEntry>,
    pub n_plus_one_suspects: Vec<NPlusOneSuspect>,
    pub slow_queries: Vec<SlowQueryEntry>,
}

/// The sum of the durations.
pub open spec fn duration_total(s: Seq<SlowQueryEntry>) -> int
    decreases s.len(),
{
    if s.len() == 0 {
        0
    } else {
        duration_total(s.drop_last()) + s.last().duration_ms
    }
}

/// `m` is the longest duration.
pub open spec fn is_longest(s: Seq<SlowQueryEntry>, m: u64) -> bool {
    &&& exists|i: int| 0 <= i < s.len() && #[trigger] s[i].duration_ms == m
    &&& forall|j: int| 0 <= j < s.len() ==> #[trigger] s[j].duration_ms <= m
}

/// `t` is the latest recording time, in string order.
pub open spec fn is_latest(s: Seq<SlowQueryEntry>, t: Seq<char>) -> bool {
    &&& exists|i: int| 0 <= i < s.len() && #[trigger] s[i].recorded_at@ == t
    &&& forall|j: int| 0 <= j < s.len() ==> !seq_lt(t, #[trigger] s[j].recorded_at@)
}

/// The snapshot of the last `slow_query_retention` slow statements and of
/// every retained N+1 suspect: counts, the longest and mean durations, the
/// latest recording time, and the statements ranked slowest first.
pub fn sql_observability_snapshot(
    slow_log: &SlowQueryLog,
    suspect_log: &NPlusOneLog,
    slow_query_threshold_ms: u64,
    slow_query_retention: usize,
) -> (r: SqlObservabilitySnapshot)
    ensures
        r.slow_queries@ == keep_last(slow_log@, slow_query_retention as nat),
        r.stats.retained_count == r.slow_queries@.len(),
        r.stats.capacity == slow_query_retention,
        r.stats.slow_query_threshold_ms == slow_query_threshold_ms,
        r.stats.max_duration_ms is None <==> r.slow_queries@.len() == 0,
        r.stats.max_duration_ms matches Some(m) ==> is_longest(r.slow_queries@, m),
        r.stats.avg_duration_ms is None <==> r.slow_queries@.len() == 0,
        r.stats.avg_duration_ms matches Some(a) ==> a == duration_total(r.slow_queries@) / (r.slow_queries@.len() as int),
        r.stats.latest_recorded_at is None <==> r.slow_queries@.len() == 0,
        r.stats.latest_recorded_at matches Some(t) ==> is_latest(r.slow_queries@, t@),
        r.top_slowest@ == ranked(r.slow_queries@),
        r.top_slowest@.to_multiset() == r.slow_queries@.to_multiset(),
        slowest_first(r.top_slowest@),
        same_suspects(r.n_plus_one_suspects@, suspect_log@),
        r.stats.n_plus_one_suspect_count == suspect_log@.len(),
{
    let slow_queries = slow_log.recent_with_retention(slow_query_retention);
    let suspects = suspect_log.recent();
    let n = slow_queries.len();
    let mut max: u64 = 0;
    let mut total: u128 = 0;
    let mut latest: Option<String> = None;
    let mut i: usize = 0;
    while i < n
        invariant
            n == slow_queries@.len(),
            i <= n,
            total == duration_total(slow_queries@.subrange(0, i as int)),
            total <= i * 0xffff_ffff_ffff_ffffu128,
            forall|j: int| 0 <= j < i ==> #[trigger] slow_queries@[j].duration_ms <= max,
            i > 0 ==> exists|j: int| 0 <= j < i && #[trigger] slow_queries@[j].duration_ms == max,
            i == 0 <==> latest is None,
            latest matches Some(t) ==> (exists|j: int| 0 <= j < i && #[trigger] slow_queries@[j].recorded_at@ == t@)
                && forall|j: int| 0 <= j < i ==> !seq_lt(t@, #[trigger] slow_queries@[j].recorded_at@),
        decreases n - i,
    {
        let e = &slow_queries[i];
        proof {
            assert(slow_queries@.subrange(0, i + 1).drop_last() =~= slow_queries@.subrange(0, i as int));
            assert(total + e.duration_ms <= (i + 1) * 0xffff_ffff_ffff_ffffu128) by (nonlinear_arith)
                requires
                    total <= i * 0xffff_ffff_ffff_ffffu128,
                    e.duration_ms <= 0xffff_ffff_ffff_ffffu64,
            ;
        }
        total = total + e.duration_ms as u128;
        if i == 0 || e.duration_ms > max {
            max = e.duration_ms;
        }
        latest = match latest {
            Some(t) => {
                if str_less(t.as_str(), e.recorded_at.as_str()) {
                    proof {
                        assert forall|j: int| 0 <= j < i implies !seq_lt(e.recorded_at@, #[trigger] slow_queries@[j].recorded_at@) by {
                            if seq_lt(e.recorded_at@, slow_queries@[j].recorded_at@) {
                                lemma_seq_lt_transitive(t@, e.recorded_at@, slow_queries@[j].recorded_at@);
                            }
                        }
                        lemma_seq_lt_irreflexive(e.recorded_at@);
                    }
                    Some(e.recorded_at.clone())
                } else {
                    proof {
                        if t@ != e.recorded_at@ {
                            lemma_seq_lt_total(t@, e.recorded_at@);
                        } else {
                            lemma_seq_lt_irreflexive(t@);
                        }
                    }
                    Some(t)
                }
            },
            None => {
                proof {
                    lemma_seq_lt_irreflexive(e.recorded_at@);
                }
                Some(e.recorded_at.clone())
            },
        };
        i = i + 1;
    }
    proof {
        assert(slow_queries@.subrange(0, n as int) =~= slow_queries@);
    }
    let max_duration_ms = if n == 0 { None } else { Some(max) };
    let avg_duration_ms = if n == 0 {
        None
    } else {
        proof {
            assert(total / (n as u128) <= 0xffff_ffff_ffff_ffffu128) by (nonlinear_arith)
                requires
                    total <= n * 0xffff_ffff_ffff_ffffu128,
                    n > 0,
            ;
        }
        Some((total / (n as u128)) as u64)
    };
    let copies = copy_entries(&slow_queries, 0);
    proof {
        assert(slow_queries@.subrange(0, n as int) =~= slow_queries@);
    }
    let top_slowest = rank_slowest_first(copies);
    let stats = SqlObservabilityStats {
        retained_count: n,
        capacity: slow_query_retention,
        slow_query_threshold_ms,
        max_duration_ms,
        avg_duration_ms,
        latest_recorded_at: latest,
        n_plus_one_suspect_count: suspects.len(),
    };
    SqlObservabilitySnapshot { stats, top_slowest, n_plus_one_suspects: suspects, slow_queries }
}

// ---------------------------------------------------------------------------
// The N+1 trace of a request
// ---------------------------------------------------------------------------

/// The settings of the N+1 trace of one HTTP request.
#[derive(Debug, PartialEq, Eq)]
pub struct SqlQueryTraceConfig {
    pub enabled: bool,
    pub min_repeats: u64,
    pub retention: usize,
    pub redact_sql_literals: bool,
    pub method: String,
    pub path: String,
    pub request_id: Option<String>,
    pub trace_id: Option<String>,
}

/// Whether observations are captured: on unless the observability
/// settings turn it off.
pub open spec fn capture_enabled(observability: Option<ObservabilityConfig>) -> bool {
    match observability {
        Some(o) => o.capture_enabled,
        None => true,
    }
}

impl SqlQueryTraceConfig {
    /// The trace settings of a request. Without database settings the trace
    /// is off; otherwise it follows the N+1 settings, at least one repeat,
    /// and takes the request id, else the one of the current trace context
    /// (`trace_request_id`), and the trace id of that context.
    pub fn from_configs(
        database: Option<DatabaseConfig>,
        observability: Option<ObservabilityConfig>,
        method: String,
        path: String,
        request_id: Option<String>,
        trace_request_id: Option<String>,
        trace_id: Option<String>,
    ) -> (r: Self)
        ensures
            r.method == method,
            r.path == path,
            database is None ==> !r.enabled && r.min_repeats == 10 && r.retention == 0 && r.redact_sql_literals
                && r.request_id == request_id && r.trace_id is None,
            database matches Some(c) ==> r.enabled == (capture_enabled(observability) && c.n_plus_one_detection)
                && r.min_repeats == (if c.n_plus_one_min_repeats > 1 { c.n_plus_one_min_repeats } else { 1 })
                && r.retention == c.n_plus_one_retention && r.redact_sql_literals == c.redact_sql_literals
                && r.request_id == (if request_id is Some { request_id } else { trace_request_id })
                && r.trace_id == trace_id,
    {
        let capture = match observability {
            Some(o) => o.capture_enabled,
            None => true,
        };
        match database {
            None => SqlQueryTraceConfig {
                enabled: false,
                min_repeats: 10,
                retention: 0,
                redact_sql_literals: true,
                method,
                path,
                request_id,
                trace_id: None,
            },
            Some(config) => SqlQueryTraceConfig {
                enabled: capture && config.n_plus_one_detection,
                min_repeats: if config.n_plus_one_min_repeats > 1 { config.n_plus_one_min_repeats } else { 1 },
                retention: config.n_plus_one_retention,
                redact_sql_literals: config.redact_sql_literals,
                method,
                path,
                request_id: match request_id {
                    Some(id) => Some(id),
                    None => trace_request_id,
                },
                trace_id,
            },
        }
    }
}

/// The observations of one statement fingerprint within a request.
#[derive(Debug, PartialEq, Eq)]
pub struct SqlQueryGroup {
    pub fingerprint: String,
    pub sample_sql: String,
    pub repeat_count: u64,
    pub total_duration_ms: u64,
    pub max_duration_ms: u64,
    pub rows_total: u64,
    pub labels: Vec<String>,
    pub kinds: Vec<String>,
    pub first_recorded_at: String,
    pub latest_recorded_at: String,
}

/// `new` holds the strings of `old` and, when given, `x`, in strictly
/// increasing order.
pub open spec fn set_added(old: Seq<Seq<char>>, x: Option<Seq<char>>, new: Seq<Seq<char>>) -> bool {
    &&& strictly_sorted(new)
    &&& forall|y: Seq<char>| new.contains(y) <==> (old.contains(y) || x == Some(y))
}

/// The label of an observation, when it is not blank.
pub open spec fn kept_label(label: Option<&str>) -> Option<Seq<char>> {
    match label {
        Some(l) => if trim(l@).len() > 0 { Some(l@) } else { None },
        None => None,
    }
}

/// A group's labels and kinds come in strictly increasing order and it has
/// at least one observation.
pub open spec fn group_well_formed(g: SqlQueryGroup) -> bool {
    &&& strictly_sorted(views_of(g.labels@))
    &&& strictly_sorted(views_of(g.kinds@))
    &&& g.repeat_count >= 1
}

/// One more observation in a group's totals, labels and kinds.
pub open spec fn group_recorded(
    old: SqlQueryGroup,
    duration_ms: u64,
    label: Option<&str>,
    kind: Seq<char>,
    rows: u64,
    recorded_at: Seq<char>,
    new: SqlQueryGroup,
) -> bool {
    &&& new.fingerprint == old.fingerprint
    &&& new.sample_sql == old.sample_sql
    &&& new.first_recorded_at == old.first_recorded_at
    &&& new.repeat_count == old.repeat_count + 1
    &&& new.total_duration_ms == old.total_duration_ms + duration_ms
    &&& new.max_duration_ms == (if duration_ms > old.max_duration_ms { duration_ms } else { old.max_duration_ms })
    &&& new.rows_total == old.rows_total + rows
    &&& set_added(views_of(old.labels@), kept_label(label), views_of(new.labels@))
    &&& set_added(views_of(old.kinds@), Some(kind), views_of(new.kinds@))
    &&& new.latest_recorded_at@ == recorded_at
}

/// Whether one more observation keeps a group's totals in range.
pub open spec fn group_has_room(g: SqlQueryGroup, duration_ms: u64, rows: u64) -> bool {
    g.repeat_count < u64::MAX && g.total_duration_ms + duration_ms <= u64::MAX && g.rows_total + rows <= u64::MAX
}

proof fn lemma_insert_contains(s: Seq<Seq<char>>, p: int, x: Seq<char>, y: Seq<char>)
    requires
        0 <= p <= s.len(),
    ensures
        s.insert(p, x).contains(y) <==> (s.contains(y) || x == y),
{
    let t = s.insert(p, x);
    if s.contains(y) {
        let i = choose|i: int| 0 <= i < s.len() && s[i] == y;
        if i < p {
            assert(t[i] == y);
        } else {
            assert(t[i + 1] == y);
        }
    }
    if x == y {
        assert(t[p] == y);
    }
    if t.contains(y) {
        let i = choose|i: int| 0 <= i < t.len() && t[i] == y;
        if i < p {
            assert(s[i] == y);
        } else if i > p {
            assert(s[i - 1] == y);
        }
    }
}

/// `x` added to a sorted set of strings, when given.
fn add_to_set(v: &mut Vec<String>, x: Option<&str>)
    requires
        strictly_sorted(views_of(old(v)@)),
    ensures
        set_added(views_of(old(v)@), match x { Some(s) => Some(s@), None => None }, views_of(final(v)@)),
{
    let ghost s0 = views_of(v@);
    match x {
        Some(s) => {
            let inserted = sorted_insert(v, s);
            proof {
                if inserted {
                    let p = choose|p: int| 0 <= p <= s0.len() && views_of(v@) == s0.insert(p, s@);
                    assert forall|y: Seq<char>| views_of(v@).contains(y) <==> (s0.contains(y) || Some(s@) == Some(y)) by {
                        lemma_insert_contains(s0, p, s@, y);
                    }
                } else {
                    assert forall|y: Seq<char>| views_of(v@).contains(y) <==> (s0.contains(y) || Some(s@) == Some(y)) by {
                        if Some(s@) == Some(y) {
                            assert(y == s@);
                        }
                    }
                }
            }
        },
        None => {},
    }
}

fn non_blank(label: Option<&str>) -> (r: Option<&str>)
    ensures
        match r {
            Some(s) => kept_label(label) == Some(s@),
            None => kept_label(label) is None,
        },
{
    match label {
        Some(l) => {
            let t = trimmed(l);
            if t.as_str().unicode_len() > 0 {
                Some(l)
            } else {
                None
            }
        },
        None => None,
    }
}

impl SqlQueryGroup {
    /// A group of one observation.
    pub fn new(
        fingerprint: String,
        sql: &str,
        duration_ms: u64,
        label: Option<&str>,
        kind: &str,
        rows: u64,
        recorded_at: String,
    ) -> (r: Self)
        ensures
            group_well_formed(r),
            r.fingerprint == fingerprint,
            r.sample_sql@ == sql@,
            r.first_recorded_at == recorded_at,
            r.latest_recorded_at == recorded_at,
            r.repeat_count == 1,
            r.total_duration_ms == duration_ms,
            r.max_duration_ms == duration_ms,
            r.rows_total == rows,
            set_added(Seq::empty(), kept_label(label), views_of(r.labels@)),
            set_added(Seq::empty(), Some(kind@), views_of(r.kinds@)),
    {
        let mut labels: Vec<String> = Vec::new();
        let mut kinds: Vec<String> = Vec::new();
        proof {
            assert(views_of(labels@) =~= Seq::<Seq<char>>::empty());
            assert(views_of(kinds@) =~= Seq::<Seq<char>>::empty());
        }
        add_to_set(&mut labels, non_blank(label));
        add_to_set(&mut kinds, Some(kind));
        let latest = recorded_at.clone();
        SqlQueryGroup {
            fingerprint,
            sample_sql: owned(sql),
            repeat_count: 1,
            total_duration_ms: duration_ms,
            max_duration_ms: duration_ms,
            rows_total: rows,
            labels,
            kinds,
            first_recorded_at: recorded_at,
            latest_recorded_at: latest,
        }
    }

    /// One more observation: counts, durations and rows add up, the longest
    /// duration is kept, a non-blank label and the kind join their sets.
    pub fn record(&mut self, duration_ms: u64, label: Option<&str>, kind: &str, rows: u64, recorded_at: &str)
        requires
            group_well_formed(*old(self)),
            group_has_room(*old(self), duration_ms, rows),
        ensures
            group_well_formed(*final(self)),
            group_recorded(*old(self), duration_ms, label, kind@, rows, recorded_at@, *final(self)),
    {
        self.repeat_count = self.repeat_count + 1;
        self.total_duration_ms = self.total_duration_ms + duration_ms;
        if duration_ms > self.max_duration_ms {
            self.max_duration_ms = duration_ms;
        }
        self.rows_total = self.rows_total + rows;
        add_to_set(&mut self.labels, non_blank(label));
        add_to_set(&mut self.kinds, Some(kind));
        self.latest_recorded_at = owned(recorded_at);
    }

    /// The group reported as a suspect of a request.
    pub fn into_suspect(self, config: &SqlQueryTraceConfig) -> (r: NPlusOneSuspect)
        requires
            self.repeat_count > 0,
        ensures
            r == suspect_of(self, *config),
    {
        NPlusOneSuspect {
            method: config.method.clone(),
            path: config.path.clone(),
            request_id: config.request_id.clone(),
            trace_id: config.trace_id.clone(),
            fingerprint: self.fingerprint,
            repeat_count: self.repeat_count,
            total_duration_ms: self.total_duration_ms,
            max_duration_ms: self.max_duration_ms,
            avg_duration_ms: self.total_duration_ms / self.repeat_count,
            rows_total: self.rows_total,
            labels: self.labels,
            kinds: self.kinds,
            sample_sql: self.sample_sql,
            first_recorded_at: self.first_recorded_at,
            latest_recorded_at: self.latest_recorded_at,
        }
    }
}

/// The suspect that a group of a request makes.
pub open spec fn suspect_of(g: SqlQueryGroup, c: SqlQueryTraceConfig) -> NPlusOneSuspect {
    NPlusOneSuspect {
        method: c.method,
        path: c.path,
        request_id: c.request_id,
        trace_id: c.trace_id,
        fingerprint: g.fingerprint,
        repeat_count: g.repeat_count,
        total_duration_ms: g.total_duration_ms,
        max_duration_ms: g.max_duration_ms,
        avg_duration_ms: (g.total_duration_ms / g.repeat_count) as u64,
        rows_total: g.rows_total,
        labels: g.labels,
        kinds: g.kinds,
        sample_sql: g.sample_sql,
        first_recorded_at: g.first_recorded_at,
        latest_recorded_at: g.latest_recorded_at,
    }
}

/// The suspects of the groups repeated at least `min_repeats` times, in
/// group order.
pub open spec fn suspects_of(groups: Seq<SqlQueryGroup>, c: SqlQueryTraceConfig) -> Seq<NPlusOneSuspect>
    decreases groups.len(),
{
    if groups.len() == 0 {
        Seq::empty()
    } else {
        let rest = suspects_of(groups.drop_last(), c);
        if groups.last().repeat_count >= c.min_repeats {
            rest.push(suspect_of(groups.last(), c))
        } else {
            rest
        }
    }
}

/// `a` repeats more, or as often and took longer, or else comes first by
/// path and then by fingerprint.
pub open spec fn suspect_outranks(a: NPlusOneSuspect, b: NPlusOneSuspect) -> bool {
    ||| a.repeat_count > b.repeat_count
    ||| a.repeat_count == b.repeat_count && a.total_duration_ms > b.total_duration_ms
    ||| a.repeat_count == b.repeat_count && a.total_duration_ms == b.total_duration_ms && seq_lt(a.path@, b.path@)
    ||| a.repeat_count == b.repeat_count && a.total_duration_ms == b.total_duration_ms && a.path@ == b.path@
        && seq_lt(a.fingerprint@, b.fingerprint@)
}

/// No suspect outranks one before it.
pub open spec fn suspects_ranked(s: Seq<NPlusOneSuspect>) -> bool {
    forall|i: int, j: int| 0 <= i < j < s.len() ==> !suspect_outranks(#[trigger] s[j], #[trigger] s[i])
}

proof fn lemma_suspect_outranks_order(a: NPlusOneSuspect, b: NPlusOneSuspect, c: NPlusOneSuspect)
    ensures
        suspect_outranks(a, b) ==> !suspect_outranks(b, a),
        suspect_outranks(a, b) && suspect_outranks(b, c) ==> suspect_outranks(a, c),
{
    lemma_seq_lt_irreflexive(a.path@);
    lemma_seq_lt_irreflexive(a.fingerprint@);
    if seq_lt(a.path@, b.path@) && seq_lt(b.path@, a.path@) {
        lemma_seq_lt_transitive(a.path@, b.path@, a.path@);
    }
    if seq_lt(a.fingerprint@, b.fingerprint@) && seq_lt(b.fingerprint@, a.fingerprint@) {
        lemma_seq_lt_transitive(a.fingerprint@, b.fingerprint@, a.fingerprint@);
    }
    if seq_lt(a.path@, b.path@) && seq_lt(b.path@, c.path@) {
        lemma_seq_lt_transitive(a.path@, b.path@, c.path@);
    }
    if seq_lt(a.fingerprint@, b.fingerprint@) && seq_lt(b.fingerprint@, c.fingerprint@) {
        lemma_seq_lt_transitive(a.fingerprint@, b.fingerprint@, c.fingerprint@);
    }
}

fn outranks_suspect(a: &NPlusOneSuspect, b: &NPlusOneSuspect) -> (r: bool)
    ensures
        r == suspect_outranks(*a, *b),
{
    if a.repeat_count != b.repeat_count {
        return a.repeat_count > b.repeat_count;
    }
    if a.total_duration_ms != b.total_duration_ms {
        return a.total_duration_ms > b.total_duration_ms;
    }
    if str_less(a.path.as_str(), b.path.as_str()) {
        return true;
    }
    str_eq(a.path.as_str(), b.path.as_str()) && str_less(a.fingerprint.as_str(), b.fingerprint.as_str())
}

/// Where a ranking of suspects places `x`: before the first suspect it
/// outranks.
pub open spec fn suspect_rank_position(s: Seq<NPlusOneSuspect>, x: NPlusOneSuspect) -> int
    decreases s.len(),
{
    if s.len() == 0 {
        0
    } else if suspect_outranks(x, s[0]) {
        0
    } else {
        1 + suspect_rank_position(s.drop_first(), x)
    }
}

/// The ranking of suspects, built by placing each in turn before the first
/// one it outranks: suspects that tie keep the order they came in.
pub open spec fn ranked_suspects(s: Seq<NPlusOneSuspect>) -> Seq<NPlusOneSuspect>
    decreases s.len(),
{
    if s.len() == 0 {
        Seq::empty()
    } else {
        let r = ranked_suspects(s.drop_last());
        r.insert(suspect_rank_position(r, s.last()), s.last())
    }
}

proof fn lemma_suspect_rank_position(s: Seq<NPlusOneSuspect>, x: NPlusOneSuspect, p: int)
    requires
        0 <= p <= s.len(),
        forall|i: int| 0 <= i < p ==> !suspect_outranks(x, #[trigger] s[i]),
        p == s.len() || suspect_outranks(x, s[p]),
    ensures
        suspect_rank_position(s, x) == p,
    decreases p,
{
    if p > 0 {
        let t = s.drop_first();
        assert forall|i: int| 0 <= i < p - 1 implies !suspect_outranks(x, #[trigger] t[i]) by {
            assert(t[i] == s[i + 1]);
        }
        if p < s.len() {
            assert(t[p - 1] == s[p]);
        }
        lemma_suspect_rank_position(t, x, p - 1);
    }
}

/// The suspects reordered most repeated first (see `suspect_outranks`).
pub fn rank_suspects(suspects: Vec<NPlusOneSuspect>) -> (r: Vec<NPlusOneSuspect>)
    ensures
        r@ == ranked_suspects(suspects@),
        r@.to_multiset() == suspects@.to_multiset(),
        suspects_ranked(r@),
{
    broadcast use vstd::seq_lib::group_to_multiset_ensures;
    let ghost all = suspects@;
    let mut out: Vec<NPlusOneSuspect> = Vec::new();
    let mut rest = suspects;
    let mut reversed: Vec<NPlusOneSuspect> = Vec::new();
    while rest.len() > 0
        invariant
            reversed@.len() + rest@.len() == all.len(),
            rest@ == all.subrange(0, rest@.len() as int),
            forall|i: int| 0 <= i < reversed@.len() ==> reversed@[i] == all[all.len() - 1 - i],
        decreases rest@.len(),
    {
        let e = rest.pop().unwrap();
        reversed.push(e);
    }
    proof {
        assert(all.subrange(0, 0) =~= Seq::<NPlusOneSuspect>::empty());
    }
    while reversed.len() > 0
        invariant
            out@.len() + reversed@.len() == all.len(),
            forall|i: int| 0 <= i < reversed@.len() ==> reversed@[i] == all[all.len() - 1 - i],
            out@.to_multiset() == all.subrange(0, all.len() - reversed@.len()).to_multiset(),
            out@ == ranked_suspects(all.subrange(0, all.len() - reversed@.len())),
            suspects_ranked(out@),
        decreases reversed@.len(),
    {
        let ghost k: int = all.len() - reversed@.len();
        let x = reversed.pop().unwrap();
        proof {
            assert(x == all[k]);
        }
        let mut p: usize = 0;
        while p < out.len() && !outranks_suspect(&x, &out[p])
            invariant
                p <= out@.len(),
                forall|i: int| 0 <= i < p ==> !suspect_outranks(x, #[trigger] out@[i]),
            decreases out@.len() - p,
        {
            p = p + 1;
        }
        let ghost before = out@;
        proof {
            lemma_suspect_rank_position(before, x, p as int);
            let q = all.subrange(0, k + 1);
            assert(q.drop_last() =~= all.subrange(0, k));
            assert(q.last() == x);
        }
        out.insert(p, x);
        proof {
            assert(all.subrange(0, k + 1) =~= all.subrange(0, k).push(x));
            vstd::seq_lib::to_multiset_insert(before, p as int, x);
            vstd::seq_lib::to_multiset_build(all.subrange(0, k), x);
            assert(out@ == before.insert(p as int, x));
            assert(out@.to_multiset() == all.subrange(0, k + 1).to_multiset());
            assert forall|i: int, j: int| 0 <= i < j < out@.len() implies !suspect_outranks(#[trigger] out@[j], #[trigger] out@[i]) by {
                if j < p {
                    assert(out@[i] == before[i] && out@[j] == before[j]);
                } else if j == p {
                    assert(out@[i] == before[i]);
                } else if i == p {
                    assert(out@[j] == before[j - 1]);
                    lemma_suspect_outranks_order(x, before[p as int], before[j - 1]);
                    lemma_suspect_outranks_order(before[j - 1], x, before[p as int]);
                    if j - 1 > p {
                        assert(!suspect_outranks(before[j - 1], before[p as int]));
                    }
                } else if i < p {
                    assert(out@[i] == before[i] && out@[j] == before[j - 1]);
                } else {
                    assert(out@[i] == before[i - 1] && out@[j] == before[j - 1]);
                }
            }
        }
    }
    proof {
        assert(all.subrange(0, all.len() as int) =~= all);
    }
    out
}

/// A group that `SqlQueryGroup::new` starts.
pub open spec fn group_started(
    g: SqlQueryGroup,
    fingerprint: Seq<char>,
    sample: Seq<char>,
    duration_ms: u64,
    label: Option<&str>,
    kind: Seq<char>,
    rows: u64,
    recorded_at: Seq<char>,
) -> bool {
    &&& group_well_formed(g)
    &&& g.fingerprint@ == fingerprint
    &&& g.sample_sql@ == sample
    &&& g.first_recorded_at@ == recorded_at
    &&& g.latest_recorded_at@ == recorded_at
    &&& g.repeat_count == 1
    &&& g.total_duration_ms == duration_ms
    &&& g.max_duration_ms == duration_ms
    &&& g.rows_total == rows
    &&& set_added(Seq::empty(), kept_label(label), views_of(g.labels@))
    &&& set_added(Seq::empty(), Some(kind), views_of(g.kinds@))
}

/// The statements of one HTTP request grouped by fingerprint, until the
/// request finishes and its repeated statements are reported.
#[derive(Debug)]
pub struct SqlQueryTrace {
    config: SqlQueryTraceConfig,
    groups: Vec<SqlQueryGroup>,
    finished: bool,
}

impl SqlQueryTrace {
    /// The trace's settings.
    pub closed spec fn settings(&self) -> SqlQueryTraceConfig {
        self.config
    }

    /// The groups, in the order their fingerprints first occurred.
    pub closed spec fn group_list(&self) -> Seq<SqlQueryGroup> {
        self.groups@
    }

    /// Whether the trace was reported.
    pub closed spec fn is_finished(&self) -> bool {
        self.finished
    }

    /// Each group is well formed and no two share a fingerprint.
    pub open spec fn well_formed(&self) -> bool {
        &&& forall|i: int| 0 <= i < self.group_list().len() ==> group_well_formed(#[trigger] self.group_list()[i])
        &&& forall|i: int, j: int|
            0 <= i < self.group_list().len() && 0 <= j < self.group_list().len() && i != j
                ==> (#[trigger] self.group_list()[i]).fingerprint@ != (#[trigger] self.group_list()[j]).fingerprint@
    }

    /// Whether the group of the statement's fingerprint, if there is one,
    /// can take one more observation of this size.
    pub open spec fn has_room(&self, sql: Seq<char>, duration_ms: u64, rows: u64) -> bool {
        forall|i: int|
            0 <= i < self.group_list().len() && (#[trigger] self.group_list()[i]).fingerprint@ == fingerprint(sql)
                ==> group_has_room(self.group_list()[i], duration_ms, rows)
    }

    /// An empty trace.
    pub fn new(config: SqlQueryTraceConfig) -> (r: Self)
        ensures
            r.settings() == config,
            r.group_list().len() == 0,
            !r.is_finished(),
            r.well_formed(),
    {
        SqlQueryTrace { config, groups: Vec::new(), finished: false }
    }

    /// Whether the group of the statement's fingerprint, if there is one,
    /// can take one more observation of this size: the condition of
    /// `record`.
    pub fn has_room_for(&self, sql: &str, duration_ms: u64, rows: u64) -> (r: bool)
        requires
            self.well_formed(),
        ensures
            r == self.has_room(sql@, duration_ms, rows),
    {
        let fp = sql_fingerprint(sql);
        let mut i: usize = 0;
        while i < self.groups.len()
            invariant
                i <= self.groups@.len(),
                self.groups@ == self.group_list(),
                self.well_formed(),
                fp@ == fingerprint(sql@),
                forall|j: int|
                    0 <= j < i && (#[trigger] self.groups@[j]).fingerprint@ == fp@
                        ==> group_has_room(self.groups@[j], duration_ms, rows),
            decreases self.groups@.len() - i,
        {
            let g = &self.groups[i];
            if str_eq(g.fingerprint.as_str(), fp.as_str()) {
                proof {
                    assert forall|j: int|
                        0 <= j < self.group_list().len() && (#[trigger] self.group_list()[j]).fingerprint@ == fp@
                            implies j == i by {
                        if j != i {
                            assert(self.group_list()[j].fingerprint@ != self.group_list()[i as int].fingerprint@);
                        }
                    }
                }
                return !(g.repeat_count == u64::MAX || g.total_duration_ms > u64::MAX - duration_ms
                    || g.rows_total > u64::MAX - rows);
            }
            i = i + 1;
        }
        true
    }

    /// Records a statement of the request: nothing when the trace is off or
    /// keeps nothing; else the group of its fingerprint takes the
    /// observation, or a new group starts with the statement as sample,
    /// redacted when asked.
    pub fn record(
        &mut self,
        sql: &str,
        duration_ms: u64,
        label: Option<&str>,
        kind: &str,
        rows: u64,
        recorded_at: String,
    )
        requires
            old(self).well_formed(),
            old(self).has_room(sql@, duration_ms, rows),
        ensures
            final(self).settings() == old(self).settings(),
            final(self).is_finished() == old(self).is_finished(),
            final(self).well_formed(),
            !old(self).settings().enabled || old(self).settings().retention == 0 ==> final(self).group_list()
                == old(self).group_list(),
            old(self).settings().enabled && old(self).settings().retention > 0 ==> {
                let groups = old(self).group_list();
                let fp = fingerprint(sql@);
                ||| exists|i: int|
                    0 <= i < groups.len() && (#[trigger] groups[i]).fingerprint@ == fp
                        && final(self).group_list() == groups.update(i, final(self).group_list()[i])
                        && group_recorded(groups[i], duration_ms, label, kind@, rows, recorded_at@, final(self).group_list()[i])
                ||| (forall|i: int| 0 <= i < groups.len() ==> (#[trigger] groups[i]).fingerprint@ != fp)
                    && final(self).group_list().len() == groups.len() + 1
                    && final(self).group_list().subrange(0, groups.len() as int) == groups
                    && group_started(final(self).group_list().last(), fp,
                        if old(self).settings().redact_sql_literals { redacted(sql@) } else { sql@ },
                        duration_ms, label, kind@, rows, recorded_at@)
            },
    {
        if !self.config.enabled || self.config.retention == 0 {
            return;
        }
        let fp = sql_fingerprint(sql);
        let ghost groups = self.groups@;
        let mut i: usize = 0;
        while i < self.groups.len() && !str_eq(self.groups[i].fingerprint.as_str(), fp.as_str())
            invariant
                i <= self.groups@.len(),
                groups == self.groups@,
                forall|j: int| 0 <= j < i ==> (#[trigger] groups[j]).fingerprint@ != fp@,
            decreases self.groups@.len() - i,
        {
            i = i + 1;
        }
        if i < self.groups.len() {
            let mut g = self.groups.remove(i);
            proof {
                assert(g == groups[i as int]);
            }
            g.record(duration_ms, label, kind, rows, recorded_at.as_str());
            let ghost g2 = g;
            self.groups.insert(i, g);
            proof {
                assert(self.groups@ =~= groups.update(i as int, g2));
                assert forall|a: int, b: int|
                    0 <= a < self.groups@.len() && 0 <= b < self.groups@.len() && a != b implies
                    (#[trigger] self.groups@[a]).fingerprint@ != (#[trigger] self.groups@[b]).fingerprint@ by {
                    assert(groups[a].fingerprint@ != groups[b].fingerprint@);
                }
            }
        } else {
            let sample = sql_for_observability(sql, self.config.redact_sql_literals);
            let g = SqlQueryGroup::new(fp, sample.as_str(), duration_ms, label, kind, rows, recorded_at);
            self.groups.push(g);
            proof {
                assert(self.groups@.subrange(0, groups.len() as int) =~= groups);
            }
        }
    }

    /// Reports the request once: the suspects of the groups repeated at
    /// least `min_repeats` times, most repeated first; the groups are
    /// dropped. A trace already reported reports nothing.
    pub fn finish(&mut self) -> (r: Vec<NPlusOneSuspect>)
        requires
            old(self).well_formed(),
        ensures
            final(self).settings() == old(self).settings(),
            final(self).is_finished(),
            final(self).well_formed(),
            old(self).is_finished() ==> r@.len() == 0 && final(self).group_list() == old(self).group_list(),
            !old(self).is_finished() ==> final(self).group_list().len() == 0
                && r@ == ranked_suspects(suspects_of(old(self).group_list(), old(self).settings()))
                && r@.to_multiset() == suspects_of(old(self).group_list(), old(self).settings()).to_multiset()
                && suspects_ranked(r@),
    {
        if self.finished {
            return Vec::new();
        }
        self.finished = true;
        let mut groups: Vec<SqlQueryGroup> = Vec::new();
        std::mem::swap(&mut groups, &mut self.groups);
        let ghost all = groups@;
        proof {
            assert(all == old(self).group_list());
            assert forall|i: int| 0 <= i < all.len() implies group_well_formed(#[trigger] all[i]) by {
                assert(old(self).group_list()[i] == all[i]);
            }
        }
        let mut rest = groups;
        let mut reversed: Vec<SqlQueryGroup> = Vec::new();
        while rest.len() > 0
            invariant
                reversed@.len() + rest@.len() == all.len(),
                rest@ == all.subrange(0, rest@.len() as int),
                forall|i: int| 0 <= i < reversed@.len() ==> reversed@[i] == all[all.len() - 1 - i],
            decreases rest@.len(),
        {
            let g = rest.pop().unwrap();
            reversed.push(g);
        }
        let mut suspects: Vec<NPlusOneSuspect> = Vec::new();
        proof {
            assert(all.subrange(0, 0) =~= Seq::<SqlQueryGroup>::empty());
        }
        while reversed.len() > 0
            invariant
                forall|i: int| 0 <= i < reversed@.len() ==> reversed@[i] == all[all.len() - 1 - i],
                reversed@.len() <= all.len(),
                forall|i: int| 0 <= i < all.len() ==> group_well_formed(#[trigger] all[i]),
                suspects@ == suspects_of(all.subrange(0, all.len() - reversed@.len()), self.config),
            decreases reversed@.len(),
        {
            let ghost k: int = all.len() - reversed@.len();
            let g = reversed.pop().unwrap();
            proof {
                assert(g == all[k]);
                assert(all.subrange(0, k + 1).drop_last() =~= all.subrange(0, k));
            }
            if g.repeat_count >= self.config.min_repeats {
                let s = g.into_suspect(&self.config);
                suspects.push(s);
            }
        }
        proof {
            assert(all.subrange(0, all.len() as int) =~= all);
        }
        rank_suspects(suspects)
    }
}

} // verus!
