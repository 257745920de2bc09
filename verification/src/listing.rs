//! The service's listings: the latest record of each node and of each job,
//! newest first, narrowed by the query's filters.
use vstd::prelude::*;
use vstd::string::StringSliceAdditionalSpecFns;
use vstd::utf8::{encode_utf8, is_ascii_chars_encode_utf8};
use crate::records::{job_state_name, lemma_job_state_wire_names, JobRecord, NodeRecord, SpecJobRecord, SpecNodeRecord};
use crate::store::Store;
use crate::json::decimal;
use crate::canonical::lemma_decimal_digits;
use crate::text::{ascii_lower, contains_bytes, unsigned_digits, occurs_at, eq_ignoring_ascii_case, parse_unsigned, parsed_unsigned, text_contains, text_eq, text_eq_ignore_ascii_case};

verus! {

/// No node record admitted after the one at `k` has its id.
pub open spec fn node_is_latest(nodes: Seq<SpecNodeRecord>, k: int) -> bool {
    forall|j: int| k < j < nodes.len() ==> (#[trigger] nodes[j]).node_id != nodes[k].node_id
}

/// A node passes the listing's filters: announced no earlier than the cutoff,
/// and, when a measurement is asked for, its event log or its quote contains it.
pub open spec fn node_passes(n: SpecNodeRecord, measurement: Option<Seq<char>>, cutoff: Option<u64>) -> bool {
    &&& match cutoff {
        None => true,
        Some(c) => n.announced_at >= c,
    }
    &&& match measurement {
        None => true,
        Some(m) => contains_bytes(encode_utf8(n.attestation.event_log), encode_utf8(m))
            || contains_bytes(encode_utf8(n.attestation.quote_hex), encode_utf8(m)),
    }
}

/// The listed nodes among the first `k` records, newest first.
pub open spec fn node_listing(
    nodes: Seq<SpecNodeRecord>,
    measurement: Option<Seq<char>>,
    cutoff: Option<u64>,
    k: int,
) -> Seq<SpecNodeRecord>
    decreases k,
{
    if k <= 0 {
        Seq::empty()
    } else {
        let rest = node_listing(nodes, measurement, cutoff, k - 1);
        if node_is_latest(nodes, k - 1) && node_passes(nodes[k - 1], measurement, cutoff) {
            seq![nodes[k - 1]] + rest
        } else {
            rest
        }
    }
}

/// No job record admitted after the one at `k` has its id.
pub open spec fn job_is_latest(jobs: Seq<SpecJobRecord>, k: int) -> bool {
    forall|j: int| k < j < jobs.len() ==> (#[trigger] jobs[j]).job_id != jobs[k].job_id
}

/// A job passes the listing's filter: when a state is asked for, its state's
/// name equals it up to ASCII case.
pub open spec fn job_passes(j: SpecJobRecord, state: Option<Seq<char>>) -> bool {
    match state {
        None => true,
        Some(x) => eq_ignoring_ascii_case(encode_utf8(job_state_name(j.state)), encode_utf8(x)),
    }
}

/// The listed jobs among the first `k` records, newest first.
pub open spec fn job_listing(jobs: Seq<SpecJobRecord>, state: Option<Seq<char>>, k: int) -> Seq<SpecJobRecord>
    decreases k,
{
    if k <= 0 {
        Seq::empty()
    } else {
        let rest = job_listing(jobs, state, k - 1);
        if job_is_latest(jobs, k - 1) && job_passes(jobs[k - 1], state) {
            seq![jobs[k - 1]] + rest
        } else {
            rest
        }
    }
}

/// The text of an optional borrowed text.
pub open spec fn opt_view(o: Option<&str>) -> Option<Seq<char>> {
    match o {
        None => None,
        Some(s) => Some(s@),
    }
}

/// The oldest announcement time a `freshness` parameter admits: when it is a
/// number of seconds, `now` less that many, stopping at zero.
pub open spec fn cutoff_of(freshness: Option<Seq<u8>>, now: u64) -> Option<u64> {
    match freshness {
        None => None,
        Some(f) => match parsed_unsigned(f, u64::MAX as nat) {
            None => None,
            Some(secs) => Some(if secs <= now { (now - secs) as u64 } else { 0 }),
        },
    }
}

/// The cutoff for the node listing from its `freshness` parameter and the time.
pub fn freshness_cutoff(freshness: Option<&str>, now: u64) -> (r: Option<u64>)
    ensures
        r == cutoff_of(
            match freshness {
                None => None,
                Some(f) => Some(f.spec_bytes()),
            },
            now,
        ),
{
    match freshness {
        None => None,
        Some(f) => match parse_unsigned(f, u64::MAX) {
            None => None,
            Some(secs) => Some(now.saturating_sub(secs)),
        },
    }
}

impl Store {
    /// The latest record of each node, newest first, that passes the filters.
    #[verifier::loop_isolation(false)]
    pub fn list_nodes(&self, measurement: Option<&str>, cutoff: Option<u64>) -> (r: Vec<NodeRecord>)
        ensures
            r@.map_values(|n: NodeRecord| n@) == node_listing(self@.nodes, opt_view(measurement), cutoff, self@.nodes.len() as int),
    {
        let nodes = self.nodes();
        let ghost nm = self@.nodes;
        let ghost m = opt_view(measurement);
        let mut out: Vec<NodeRecord> = Vec::new();
        let mut i = nodes.len();
        while i > 0
            invariant
                nodes@.map_values(|n: NodeRecord| n@) == nm,
                i <= nm.len(),
                out@.map_values(|n: NodeRecord| n@) + node_listing(nm, m, cutoff, i as int)
                    == node_listing(nm, m, cutoff, nm.len() as int),
            decreases i,
        {
            i = i - 1;
            let n = &nodes[i];
            assert(nm[i as int] == n@);
            let mut latest = true;
            let mut j = i + 1;
            while j < nodes.len()
                invariant
                    i < j <= nm.len(),
                    latest == (forall|k: int| i < k < j ==> (#[trigger] nm[k]).node_id != nm[i as int].node_id),
                decreases nm.len() - j,
            {
                assert(nm[j as int] == nodes@[j as int]@);
                if text_eq(nodes[j].node_id.as_str(), n.node_id.as_str()) {
                    latest = false;
                }
                j = j + 1;
            }
            let fresh = match cutoff {
                None => true,
                Some(c) => n.announced_at >= c,
            };
            let matches = match measurement {
                None => true,
                Some(x) => text_contains(n.attestation.event_log.as_str(), x) || text_contains(
                    n.attestation.quote_hex.as_str(),
                    x,
                ),
            };
            let ghost before = out@.map_values(|n: NodeRecord| n@);
            if latest && fresh && matches {
                out.push(n.duplicate());
                assert(out@.map_values(|n: NodeRecord| n@) =~= before.push(nm[i as int]));
                assert(before + node_listing(nm, m, cutoff, i + 1) =~= before.push(nm[i as int]) + node_listing(nm, m, cutoff, i as int));
            }
        }
        assert(out@.map_values(|n: NodeRecord| n@) =~= out@.map_values(|n: NodeRecord| n@) + node_listing(nm, m, cutoff, 0));
        out
    }

    /// The latest record of each job, newest first, that passes the filter.
    #[verifier::loop_isolation(false)]
    pub fn list_jobs(&self, state: Option<&str>) -> (r: Vec<JobRecord>)
        ensures
            r@.map_values(|j: JobRecord| j@) == job_listing(self@.jobs, opt_view(state), self@.jobs.len() as int),
    {
        let jobs = self.jobs();
        let ghost jm = self@.jobs;
        let ghost st = opt_view(state);
        let mut out: Vec<JobRecord> = Vec::new();
        let mut i = jobs.len();
        while i > 0
            invariant
                jobs@.map_values(|j: JobRecord| j@) == jm,
                i <= jm.len(),
                out@.map_values(|j: JobRecord| j@) + job_listing(jm, st, i as int) == job_listing(jm, st, jm.len() as int),
            decreases i,
        {
            i = i - 1;
            let jb = &jobs[i];
            assert(jm[i as int] == jb@);
            let mut latest = true;
            let mut j = i + 1;
            while j < jobs.len()
                invariant
                    i < j <= jm.len(),
                    latest == (forall|k: int| i < k < j ==> (#[trigger] jm[k]).job_id != jm[i as int].job_id),
                decreases jm.len() - j,
            {
                assert(jm[j as int] == jobs@[j as int]@);
                if text_eq(jobs[j].job_id.as_str(), jb.job_id.as_str()) {
                    latest = false;
                }
                j = j + 1;
            }
            let passes = match state {
                None => true,
                Some(x) => text_eq_ignore_ascii_case(jb.state.name(), x),
            };
            let ghost before = out@.map_values(|j: JobRecord| j@);
            if latest && passes {
                out.push(jb.duplicate());
                assert(out@.map_values(|j: JobRecord| j@) =~= before.push(jm[i as int]));
                assert(before + job_listing(jm, st, i + 1) =~= before.push(jm[i as int]) + job_listing(jm, st, i as int));
            }
        }
        assert(out@.map_values(|j: JobRecord| j@) =~= out@.map_values(|j: JobRecord| j@) + job_listing(jm, st, 0));
        out
    }
}

/// What the node listing over the first `k` records holds: each entry is one
/// of those records that is the latest of its node and passes the filters; no
/// two entries share a node id; and every such record is listed.
proof fn lemma_node_listing_prefix(nodes: Seq<SpecNodeRecord>, m: Option<Seq<char>>, c: Option<u64>, k: int)
    requires
        0 <= k <= nodes.len(),
    ensures
        forall|i: int| 0 <= i < node_listing(nodes, m, c, k).len() ==> exists|x: int|
            0 <= x < k && nodes[x] == #[trigger] node_listing(nodes, m, c, k)[i] && node_is_latest(nodes, x)
                && node_passes(nodes[x], m, c),
        forall|i: int, j: int| 0 <= i < j < node_listing(nodes, m, c, k).len()
            ==> (#[trigger] node_listing(nodes, m, c, k)[i]).node_id != (#[trigger] node_listing(nodes, m, c, k)[j]).node_id,
        forall|x: int| 0 <= x < k && node_is_latest(nodes, x) && node_passes(nodes[x], m, c)
            ==> node_listing(nodes, m, c, k).contains(#[trigger] nodes[x]),
    decreases k,
{
    if k > 0 {
        lemma_node_listing_prefix(nodes, m, c, k - 1);
        let rest = node_listing(nodes, m, c, k - 1);
        let l = node_listing(nodes, m, c, k);
        if node_is_latest(nodes, k - 1) && node_passes(nodes[k - 1], m, c) {
            assert(l == seq![nodes[k - 1]] + rest);
            assert forall|i: int| 0 <= i < l.len() implies exists|x: int|
                0 <= x < k && nodes[x] == #[trigger] l[i] && node_is_latest(nodes, x) && node_passes(nodes[x], m, c) by {
                if i > 0 {
                    assert(l[i] == rest[i - 1]);
                }
            }
            assert forall|i: int, j: int| 0 <= i < j < l.len() implies (#[trigger] l[i]).node_id != (#[trigger] l[j]).node_id by {
                assert(l[j] == rest[j - 1]);
                let y = choose|y: int| 0 <= y < k - 1 && nodes[y] == rest[j - 1] && node_is_latest(nodes, y) && node_passes(nodes[y], m, c);
                if i > 0 {
                    assert(l[i] == rest[i - 1]);
                } else {
                    assert(nodes[k - 1].node_id != nodes[y].node_id);
                }
            }
            assert forall|x: int| 0 <= x < k && node_is_latest(nodes, x) && node_passes(nodes[x], m, c)
                implies l.contains(#[trigger] nodes[x]) by {
                if x < k - 1 {
                    let i = choose|i: int| 0 <= i < rest.len() && rest[i] == nodes[x];
                    assert(l[i + 1] == nodes[x]);
                } else {
                    assert(l[0] == nodes[x]);
                }
            }
        } else {
            assert(l == rest);
        }
    }
}

/// The node listing shows, among the records it is given, exactly the latest
/// record of each node that passes the filters, and no node twice.
pub proof fn lemma_node_listing(nodes: Seq<SpecNodeRecord>, measurement: Option<Seq<char>>, cutoff: Option<u64>)
    ensures
        ({
            let l = node_listing(nodes, measurement, cutoff, nodes.len() as int);
            &&& forall|i: int| 0 <= i < l.len() ==> exists|x: int|
                0 <= x < nodes.len() && nodes[x] == #[trigger] l[i] && node_is_latest(nodes, x)
                    && node_passes(nodes[x], measurement, cutoff)
            &&& forall|i: int, j: int| 0 <= i < j < l.len() ==> (#[trigger] l[i]).node_id != (#[trigger] l[j]).node_id
            &&& forall|x: int| 0 <= x < nodes.len() && node_is_latest(nodes, x) && node_passes(nodes[x], measurement, cutoff)
                ==> l.contains(#[trigger] nodes[x])
        }),
{
    lemma_node_listing_prefix(nodes, measurement, cutoff, nodes.len() as int);
}

/// What the job listing over the first `k` records holds: each entry is one of
/// those records that is the latest of its job and passes the filter; no two
/// entries share a job id; and every such record is listed.
proof fn lemma_job_listing_prefix(jobs: Seq<SpecJobRecord>, st: Option<Seq<char>>, k: int)
    requires
        0 <= k <= jobs.len(),
    ensures
        forall|i: int| 0 <= i < job_listing(jobs, st, k).len() ==> exists|x: int|
            0 <= x < k && jobs[x] == #[trigger] job_listing(jobs, st, k)[i] && job_is_latest(jobs, x)
                && job_passes(jobs[x], st),
        forall|i: int, j: int| 0 <= i < j < job_listing(jobs, st, k).len()
            ==> (#[trigger] job_listing(jobs, st, k)[i]).job_id != (#[trigger] job_listing(jobs, st, k)[j]).job_id,
        forall|x: int| 0 <= x < k && job_is_latest(jobs, x) && job_passes(jobs[x], st)
            ==> job_listing(jobs, st, k).contains(#[trigger] jobs[x]),
    decreases k,
{
    if k > 0 {
        lemma_job_listing_prefix(jobs, st, k - 1);
        let rest = job_listing(jobs, st, k - 1);
        let l = job_listing(jobs, st, k);
        if job_is_latest(jobs, k - 1) && job_passes(jobs[k - 1], st) {
            assert(l == seq![jobs[k - 1]] + rest);
            assert forall|i: int| 0 <= i < l.len() implies exists|x: int|
                0 <= x < k && jobs[x] == #[trigger] l[i] && job_is_latest(jobs, x) && job_passes(jobs[x], st) by {
                if i > 0 {
                    assert(l[i] == rest[i - 1]);
                }
            }
            assert forall|i: int, j: int| 0 <= i < j < l.len() implies (#[trigger] l[i]).job_id != (#[trigger] l[j]).job_id by {
                assert(l[j] == rest[j - 1]);
                let y = choose|y: int| 0 <= y < k - 1 && jobs[y] == rest[j - 1] && job_is_latest(jobs, y) && job_passes(jobs[y], st);
                if i > 0 {
                    assert(l[i] == rest[i - 1]);
                } else {
                    assert(jobs[k - 1].job_id != jobs[y].job_id);
                }
            }
            assert forall|x: int| 0 <= x < k && job_is_latest(jobs, x) && job_passes(jobs[x], st)
                implies l.contains(#[trigger] jobs[x]) by {
                if x < k - 1 {
                    let i = choose|i: int| 0 <= i < rest.len() && rest[i] == jobs[x];
                    assert(l[i + 1] == jobs[x]);
                } else {
                    assert(l[0] == jobs[x]);
                }
            }
        } else {
            assert(l == rest);
        }
    }
}

/// The job listing shows, among the records it is given, exactly the latest
/// record of each job that passes the filter, and no job twice.
pub proof fn lemma_job_listing(jobs: Seq<SpecJobRecord>, state: Option<Seq<char>>)
    ensures
        ({
            let l = job_listing(jobs, state, jobs.len() as int);
            &&& forall|i: int| 0 <= i < l.len() ==> exists|x: int|
                0 <= x < jobs.len() && jobs[x] == #[trigger] l[i] && job_is_latest(jobs, x) && job_passes(jobs[x], state)
            &&& forall|i: int, j: int| 0 <= i < j < l.len() ==> (#[trigger] l[i]).job_id != (#[trigger] l[j]).job_id
            &&& forall|x: int| 0 <= x < jobs.len() && job_is_latest(jobs, x) && job_passes(jobs[x], state)
                ==> l.contains(#[trigger] jobs[x])
        }),
{
    lemma_job_listing_prefix(jobs, state, jobs.len() as int);
}

/// What the node filters ask, written out: an announcement no older than the
/// cutoff, and, when a measurement is asked for, the bytes of the measurement
/// found at some position of the event log's bytes or of the quote's bytes.
pub open spec fn node_wanted(n: SpecNodeRecord, measurement: Option<Seq<char>>, cutoff: Option<u64>) -> bool {
    &&& match cutoff {
        None => true,
        Some(c) => n.announced_at >= c,
    }
    &&& match measurement {
        None => true,
        Some(m) => {
            let mb = encode_utf8(m);
            let ev = encode_utf8(n.attestation.event_log);
            let q = encode_utf8(n.attestation.quote_hex);
            ||| exists|k: int| 0 <= k && k + mb.len() <= ev.len() && #[trigger] ev.subrange(k, k + mb.len()) == mb
            ||| exists|k: int| 0 <= k && k + mb.len() <= q.len() && #[trigger] q.subrange(k, k + mb.len()) == mb
        },
    }
}

/// The node listing holds the latest record of a node exactly when the
/// record is as fresh as asked and the measurement asked for occurs anywhere
/// in its event log or its quote.
pub proof fn lemma_node_listing_filters(nodes: Seq<SpecNodeRecord>, measurement: Option<Seq<char>>, cutoff: Option<u64>)
    ensures
        forall|n: SpecNodeRecord| node_passes(n, measurement, cutoff) <==> #[trigger] node_wanted(n, measurement, cutoff),
        forall|x: int|
            0 <= x < nodes.len() && node_is_latest(nodes, x) ==> (node_listing(
                nodes,
                measurement,
                cutoff,
                nodes.len() as int,
            ).contains(#[trigger] nodes[x]) <==> node_wanted(nodes[x], measurement, cutoff)),
{
    assert forall|n: SpecNodeRecord| node_passes(n, measurement, cutoff) <==> #[trigger] node_wanted(n, measurement, cutoff) by {
        if let Some(m) = measurement {
            let mb = encode_utf8(m);
            let ev = encode_utf8(n.attestation.event_log);
            let q = encode_utf8(n.attestation.quote_hex);
            if contains_bytes(ev, mb) {
                let k = choose|k: int| occurs_at(ev, mb, k);
                assert(ev.subrange(k, k + mb.len()) == mb);
            }
            if contains_bytes(q, mb) {
                let k = choose|k: int| occurs_at(q, mb, k);
                assert(q.subrange(k, k + mb.len()) == mb);
            }
            if exists|k: int| 0 <= k && k + mb.len() <= ev.len() && #[trigger] ev.subrange(k, k + mb.len()) == mb {
                let k = choose|k: int| 0 <= k && k + mb.len() <= ev.len() && #[trigger] ev.subrange(k, k + mb.len()) == mb;
                assert(occurs_at(ev, mb, k));
            }
            if exists|k: int| 0 <= k && k + mb.len() <= q.len() && #[trigger] q.subrange(k, k + mb.len()) == mb {
                let k = choose|k: int| 0 <= k && k + mb.len() <= q.len() && #[trigger] q.subrange(k, k + mb.len()) == mb;
                assert(occurs_at(q, mb, k));
            }
        }
    }
    lemma_node_listing(nodes, measurement, cutoff);
    let l = node_listing(nodes, measurement, cutoff, nodes.len() as int);
    assert forall|x: int| 0 <= x < nodes.len() && node_is_latest(nodes, x) implies (l.contains(#[trigger] nodes[x])
        <==> node_wanted(nodes[x], measurement, cutoff)) by {
        if l.contains(nodes[x]) {
            let i = choose|i: int| 0 <= i < l.len() && l[i] == nodes[x];
            let y = choose|y: int| 0 <= y < nodes.len() && nodes[y] == #[trigger] l[i] && node_is_latest(nodes, y)
                && node_passes(nodes[y], measurement, cutoff);
            assert(node_passes(nodes[x], measurement, cutoff));
        }
        assert(node_passes(nodes[x], measurement, cutoff) == node_wanted(nodes[x], measurement, cutoff));
    }
}

/// What the job filter asks, written out: when a state is asked for, the
/// asked text, with ASCII capitals made small, is the state's name, byte by
/// byte.
pub open spec fn job_wanted(j: SpecJobRecord, state: Option<Seq<char>>) -> bool {
    match state {
        None => true,
        Some(x) => {
            let xb = encode_utf8(x);
            let nb = encode_utf8(job_state_name(j.state));
            &&& xb.len() == nb.len()
            &&& forall|i: int|
                0 <= i < xb.len() ==> (if 65 <= #[trigger] xb[i] <= 90 {
                    xb[i] + 32
                } else {
                    xb[i] as int
                }) == nb[i]
        },
    }
}

/// The job listing holds the latest record of a job exactly when, once the
/// asked state is put in lower case, it is that job's state name.
pub proof fn lemma_job_listing_filter(jobs: Seq<SpecJobRecord>, state: Option<Seq<char>>)
    ensures
        forall|j: SpecJobRecord| job_passes(j, state) <==> #[trigger] job_wanted(j, state),
        forall|x: int|
            0 <= x < jobs.len() && job_is_latest(jobs, x) ==> (job_listing(jobs, state, jobs.len() as int).contains(
                #[trigger] jobs[x],
            ) <==> job_wanted(jobs[x], state)),
{
    lemma_job_state_wire_names();
    assert forall|j: SpecJobRecord| job_passes(j, state) <==> #[trigger] job_wanted(j, state) by {
        if let Some(x) = state {
            let name = job_state_name(j.state);
            is_ascii_chars_encode_utf8(name);
            let nb = encode_utf8(name);
            let xb = encode_utf8(x);
            assert forall|i: int| 0 <= i < nb.len() implies ascii_lower(#[trigger] nb[i]) == nb[i] && !(65 <= nb[i] <= 90) by {
                assert(nb[i] == name[i] as u8);
                assert('a' <= name[i] <= 'z');
            }
            if xb.len() == nb.len() {
                assert forall|i: int| 0 <= i < xb.len() implies (ascii_lower(#[trigger] xb[i]) == ascii_lower(nb[i]) <==> (if 65
                    <= xb[i] <= 90 {
                    xb[i] + 32
                } else {
                    xb[i] as int
                }) == nb[i]) by {
                    assert(ascii_lower(nb[i]) == nb[i]);
                }
            }
        }
    }
    lemma_job_listing(jobs, state);
    let l = job_listing(jobs, state, jobs.len() as int);
    assert forall|x: int| 0 <= x < jobs.len() && job_is_latest(jobs, x) implies (l.contains(#[trigger] jobs[x])
        <==> job_wanted(jobs[x], state)) by {
        if l.contains(jobs[x]) {
            let i = choose|i: int| 0 <= i < l.len() && l[i] == jobs[x];
            let y = choose|y: int| 0 <= y < jobs.len() && jobs[y] == #[trigger] l[i] && job_is_latest(jobs, y)
                && job_passes(jobs[y], state);
            assert(job_passes(jobs[x], state));
        }
        assert(job_passes(jobs[x], state) == job_wanted(jobs[x], state));
    }
}

/// A `freshness` of `secs` seconds, written in decimal with or without a
/// leading `+`, admits announcements from `now - secs` on (from zero when
/// `secs` exceeds `now`); text holding any byte that is no digit, other than
/// one leading `+`, or holding no digit at all, asks for no cutoff.
pub proof fn lemma_freshness_cutoff(secs: u64, now: u64, f: Seq<u8>)
    ensures
        cutoff_of(Some(decimal(secs as nat)), now) == Some(if secs <= now { (now - secs) as u64 } else { 0u64 }),
        cutoff_of(Some(seq![43u8] + decimal(secs as nat)), now) == Some(
            if secs <= now { (now - secs) as u64 } else { 0u64 },
        ),
        ({
            let d = if f.len() > 0 && f[0] == 43 { f.drop_first() } else { f };
            (d.len() == 0 || exists|i: int| 0 <= i < d.len() && !(48 <= #[trigger] d[i] <= 57))
                ==> cutoff_of(Some(f), now) is None
        }),
{
    let d = decimal(secs as nat);
    lemma_decimal_digits(secs as nat);
    assert(!(d[0] == 43));
    assert(unsigned_digits(d) == d);
    let pd = seq![43u8] + d;
    assert(pd.drop_first() =~= d);
    assert(unsigned_digits(pd) == d);
}

} // verus!
