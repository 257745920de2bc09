//! What the service admits. Each kind of record is checked in a fixed order,
//! and the first check it fails decides the answer. Admitting is split in two:
//! a check that leaves the store alone, so the caller can make the record
//! durable first, and a commit that checks again and appends what passes.
//! Starting from an empty store, commits keep the store `consistent`.
use vstd::prelude::*;
use vstd::utf8::encode_utf8;
use crate::crypto::blake3_digest;
use crate::hexcode::{hex_bytes, hex_decodable, hex_decode, hex_text};
use crate::records::{
    JobRecord, JobState, JoinRecord, NodeRecord, ResultRecord, SpecJobRecord, SpecJoinRecord,
    SpecNodeRecord, SpecResultRecord,
};
use crate::signed::Signed;
use crate::signing::{node_id_for, signature_error, signature_valid, verify_signature};
use crate::store::{all_authentic, job, latest_job_of, latest_node, latest_node_of, SpecStore, Store};
use crate::text::text_eq;

verus! {

/// The answer to a record offered to the service.
pub enum Verdict {
    /// Every check passes.
    Admit,
    /// The signature check fails; the message is `verify_signature`'s.
    BadSignature,
    /// A later check fails, with this message.
    Refuse(Seq<char>),
}

/// `r` is the answer `verdict` calls for, for the record `rec` of type `T`.
pub open spec fn answers<T: Signed>(verdict: Verdict, rec: T::V, r: Result<(), String>) -> bool {
    match verdict {
        Verdict::Admit => r is Ok,
        Verdict::BadSignature => r matches Err(e) && signature_error::<T>(rec, e@),
        Verdict::Refuse(m) => r matches Err(e) && e@ == m,
    }
}

/// The key bytes a node record names, when its `pubkey` is hex for 32 bytes.
pub open spec fn node_key_well_formed(v: SpecNodeRecord) -> bool {
    hex_decodable(encode_utf8(v.pubkey)) && hex_bytes(encode_utf8(v.pubkey)).len() == 32
}

/// A node's id is the hex BLAKE3 digest of its key.
pub open spec fn node_id_matches(v: SpecNodeRecord) -> bool {
    v.node_id == hex_text(blake3_digest(hex_bytes(encode_utf8(v.pubkey))))
}

/// A node serves at least one party, and each threshold `t` it supports fits
/// in its largest committee: `3t + 1 <= max_parties`.
pub open spec fn capabilities_valid(v: SpecNodeRecord) -> bool {
    &&& v.max_parties != 0
    &&& forall|i: int|
        0 <= i < v.supported_thresholds.len() ==> 3 * #[trigger] v.supported_thresholds[i] + 1 <= v.max_parties
}

/// The answer to a node announcement.
pub open spec fn node_verdict(s: SpecStore, v: SpecNodeRecord) -> Verdict {
    if !signature_valid::<NodeRecord>(v) {
        Verdict::BadSignature
    } else if !node_key_well_formed(v) {
        Verdict::Refuse("pubkey is not 32-byte hex"@)
    } else if !node_id_matches(v) {
        Verdict::Refuse("node_id does not match pubkey"@)
    } else if !capabilities_valid(v) {
        Verdict::Refuse("invalid node capabilities"@)
    } else if latest_node_of(s.nodes, v.node_id) matches Some(old) && old.pubkey != v.pubkey {
        Verdict::Refuse("node identity is bound to another key"@)
    } else {
        Verdict::Admit
    }
}

/// A job's committee tolerates its threshold, `n >= 3t + 1`, is not empty,
/// and the job is proposed open.
pub open spec fn job_shape_valid(v: SpecJobRecord) -> bool {
    &&& v.n_parties >= 3 * v.threshold + 1
    &&& v.n_parties != 0
    &&& v.state == JobState::Open
}

/// The answer to a job proposal.
pub open spec fn job_verdict(s: SpecStore, v: SpecJobRecord) -> Verdict {
    if !signature_valid::<JobRecord>(v) {
        Verdict::BadSignature
    } else if !job_shape_valid(v) {
        Verdict::Refuse("job must be open and satisfy n >= 3t + 1"@)
    } else {
        match latest_job_of(s.jobs, v.job_id) {
            Some(old) => if old != v {
                Verdict::Refuse("job_id already has a different record"@)
            } else {
                Verdict::Refuse("job_id already exists"@)
            },
            None => Verdict::Admit,
        }
    }
}

/// A join for job `id` already names this node or this party.
pub open spec fn join_taken(joins: Seq<SpecJoinRecord>, id: Seq<char>, v: SpecJoinRecord) -> bool {
    exists|k: int|
        0 <= k < joins.len() && (#[trigger] joins[k]).job_id == id && (joins[k].node_id == v.node_id
            || joins[k].party_id == v.party_id)
}

/// The answer to a join offered for job `id`.
pub open spec fn join_verdict(s: SpecStore, id: Seq<char>, v: SpecJoinRecord) -> Verdict {
    if !signature_valid::<JoinRecord>(v) {
        Verdict::BadSignature
    } else if v.job_id != id {
        Verdict::Refuse("path job id does not match record"@)
    } else {
        match latest_job_of(s.jobs, id) {
            None => Verdict::Refuse("unknown job"@),
            Some(j) => match latest_node_of(s.nodes, v.node_id) {
                None => Verdict::Refuse("unknown node"@),
                Some(n) => if j.state != JobState::Open && j.state != JobState::Forming {
                    Verdict::Refuse("job is not accepting joins"@)
                } else if n.pubkey != v.pubkey || v.party_id >= j.n_parties {
                    Verdict::Refuse("join key or party is invalid"@)
                } else if join_taken(s.joins, id, v) {
                    Verdict::Refuse("node or party already joined"@)
                } else {
                    Verdict::Admit
                },
            },
        }
    }
}

/// A join for job `id` names this result's node and party.
pub open spec fn result_has_join(joins: Seq<SpecJoinRecord>, id: Seq<char>, v: SpecResultRecord) -> bool {
    exists|k: int|
        0 <= k < joins.len() && (#[trigger] joins[k]).job_id == id && joins[k].node_id == v.node_id
            && joins[k].party_id == v.party_id
}

/// A result for job `id` from this node is already held.
pub open spec fn result_taken(results: Seq<SpecResultRecord>, id: Seq<char>, v: SpecResultRecord) -> bool {
    exists|k: int| 0 <= k < results.len() && (#[trigger] results[k]).job_id == id && results[k].node_id == v.node_id
}

/// The answer to a result offered for job `id`.
pub open spec fn result_verdict(s: SpecStore, id: Seq<char>, v: SpecResultRecord) -> Verdict {
    if !signature_valid::<ResultRecord>(v) {
        Verdict::BadSignature
    } else if v.job_id != id {
        Verdict::Refuse("path job id does not match record"@)
    } else {
        match latest_job_of(s.jobs, id) {
            None => Verdict::Refuse("unknown job"@),
            Some(j) => match latest_node_of(s.nodes, v.node_id) {
                None => Verdict::Refuse("unknown node"@),
                Some(n) => if n.pubkey != v.pubkey || v.program_id != j.program_id {
                    Verdict::Refuse("result key or program is invalid"@)
                } else if !result_has_join(s.joins, id, v) {
                    Verdict::Refuse("result has no matching join"@)
                } else if result_taken(s.results, id, v) {
                    Verdict::Refuse("node already posted a result"@)
                } else {
                    Verdict::Admit
                },
            },
        }
    }
}

/// No two joins for the same job name the same node or the same party.
pub open spec fn committees_distinct(joins: Seq<SpecJoinRecord>) -> bool {
    forall|a: int, b: int|
        0 <= a < b < joins.len() && (#[trigger] joins[a]).job_id == (#[trigger] joins[b]).job_id
            ==> joins[a].node_id != joins[b].node_id && joins[a].party_id != joins[b].party_id
}

/// No node has two results for the same job.
pub open spec fn results_distinct(results: Seq<SpecResultRecord>) -> bool {
    forall|a: int, b: int|
        0 <= a < b < results.len() && (#[trigger] results[a]).job_id == (#[trigger] results[b]).job_id
            ==> results[a].node_id != results[b].node_id
}

/// Every result is backed by a join of its node, as its party, for its job.
pub open spec fn results_backed(s: SpecStore) -> bool {
    forall|i: int|
        0 <= i < s.results.len() ==> result_has_join(s.joins, (#[trigger] s.results[i]).job_id, s.results[i])
}

/// No two jobs share an id.
pub open spec fn job_ids_distinct(jobs: Seq<SpecJobRecord>) -> bool {
    forall|a: int, b: int| 0 <= a < b < jobs.len() ==> (#[trigger] jobs[a]).job_id != (#[trigger] jobs[b]).job_id
}

/// Every job tolerates its threshold, `n >= 3t + 1`, and was proposed open.
pub open spec fn jobs_well_shaped(jobs: Seq<SpecJobRecord>) -> bool {
    forall|i: int| 0 <= i < jobs.len() ==> job_shape_valid(#[trigger] jobs[i])
}

/// A join names a job the store holds, a party inside that job's committee,
/// and the key of the latest record of its node.
pub open spec fn join_refers(s: SpecStore, v: SpecJoinRecord) -> bool {
    &&& match latest_job_of(s.jobs, v.job_id) {
        Some(j) => v.party_id < j.n_parties,
        None => false,
    }
    &&& match latest_node_of(s.nodes, v.node_id) {
        Some(n) => n.pubkey == v.pubkey,
        None => false,
    }
}

/// A result names a job the store holds, that job's program, and the key of
/// the latest record of its node.
pub open spec fn result_refers(s: SpecStore, v: SpecResultRecord) -> bool {
    &&& match latest_job_of(s.jobs, v.job_id) {
        Some(j) => v.program_id == j.program_id,
        None => false,
    }
    &&& match latest_node_of(s.nodes, v.node_id) {
        Some(n) => n.pubkey == v.pubkey,
        None => false,
    }
}

/// Every join and every result refers as it must.
pub open spec fn references_hold(s: SpecStore) -> bool {
    &&& forall|i: int| 0 <= i < s.joins.len() ==> join_refers(s, #[trigger] s.joins[i])
    &&& forall|i: int| 0 <= i < s.results.len() ==> result_refers(s, #[trigger] s.results[i])
}

/// What the service's checks keep true of everything they admitted.
pub open spec fn consistent(s: SpecStore) -> bool {
    &&& committees_distinct(s.joins)
    &&& results_distinct(s.results)
    &&& results_backed(s)
    &&& job_ids_distinct(s.jobs)
    &&& jobs_well_shaped(s.jobs)
    &&& references_hold(s)
}

/// The latest node record once `v` is appended.
proof fn lemma_latest_node_push(nodes: Seq<SpecNodeRecord>, v: SpecNodeRecord, id: Seq<char>)
    ensures
        latest_node_of(nodes.push(v), id) == (if v.node_id == id { Some(v) } else { latest_node_of(nodes, id) }),
{
    assert(nodes.push(v).drop_last() =~= nodes);
}

/// The latest job record once `v` is appended.
proof fn lemma_latest_job_push(jobs: Seq<SpecJobRecord>, v: SpecJobRecord, id: Seq<char>)
    ensures
        latest_job_of(jobs.push(v), id) == (if v.job_id == id { Some(v) } else { latest_job_of(jobs, id) }),
{
    assert(jobs.push(v).drop_last() =~= jobs);
}

/// There is no job with id `id` exactly when the latest lookup finds none.
proof fn lemma_no_latest_job(jobs: Seq<SpecJobRecord>, id: Seq<char>)
    ensures
        latest_job_of(jobs, id) is None <==> forall|k: int| 0 <= k < jobs.len() ==> (#[trigger] jobs[k]).job_id != id,
    decreases jobs.len(),
{
    if jobs.len() > 0 {
        lemma_no_latest_job(jobs.drop_last(), id);
        if latest_job_of(jobs, id) is None {
            assert forall|k: int| 0 <= k < jobs.len() implies (#[trigger] jobs[k]).job_id != id by {
                if k < jobs.len() - 1 {
                    assert(jobs.drop_last()[k] == jobs[k]);
                }
            }
        } else {
            if jobs.last().job_id != id {
                let k = choose|k: int| 0 <= k < jobs.drop_last().len() && (#[trigger] jobs.drop_last()[k]).job_id == id;
                assert(jobs[k] == jobs.drop_last()[k]);
            }
        }
    }
}

/// A job proposal is admitted exactly when its signature verifies, its
/// committee is not empty and tolerates its threshold (`n >= 3t + 1`), it is
/// proposed open, and no job the store holds has its id.
pub proof fn lemma_job_admission(s: SpecStore, v: SpecJobRecord)
    ensures
        job_verdict(s, v) is Admit <==> {
            &&& signature_valid::<JobRecord>(v)
            &&& v.n_parties as int >= 3 * (v.threshold as int) + 1
            &&& v.n_parties > 0
            &&& v.state == JobState::Open
            &&& forall|k: int| 0 <= k < s.jobs.len() ==> (#[trigger] s.jobs[k]).job_id != v.job_id
        },
{
    lemma_no_latest_job(s.jobs, v.job_id);
}

/// A node announcement is admitted exactly when its signature verifies, its
/// key is hex for 32 bytes, its id is the hex BLAKE3 digest of that key, it
/// serves at least one party and every threshold `t` it supports fits its
/// largest committee (`3t + 1 <= max_parties`), and the latest record of its
/// id, if any, names the same key.
pub proof fn lemma_node_admission(s: SpecStore, v: SpecNodeRecord)
    ensures
        node_verdict(s, v) is Admit <==> {
            &&& signature_valid::<NodeRecord>(v)
            &&& hex_decodable(encode_utf8(v.pubkey))
            &&& hex_bytes(encode_utf8(v.pubkey)).len() == 32
            &&& v.node_id == hex_text(blake3_digest(hex_bytes(encode_utf8(v.pubkey))))
            &&& v.max_parties > 0
            &&& forall|i: int| 0 <= i < v.supported_thresholds.len()
                ==> 3 * (#[trigger] v.supported_thresholds[i] as int) + 1 <= v.max_parties as int
            &&& match latest_node_of(s.nodes, v.node_id) {
                Some(old) => old.pubkey == v.pubkey,
                None => true,
            }
        },
{
}

/// A join offered for job `id` is admitted exactly when its signature
/// verifies, it names job `id`, the store holds that job and it is open or
/// forming, the join's party lies inside the committee (`party_id <
/// n_parties`), the store holds its node under the key it names, and no join
/// already held for the job names the same node or the same party.
pub proof fn lemma_join_admission(s: SpecStore, id: Seq<char>, v: SpecJoinRecord)
    ensures
        join_verdict(s, id, v) is Admit <==> {
            &&& signature_valid::<JoinRecord>(v)
            &&& v.job_id == id
            &&& match latest_job_of(s.jobs, id) {
                Some(j) => (j.state == JobState::Open || j.state == JobState::Forming) && (v.party_id as int) < (
                j.n_parties as int),
                None => false,
            }
            &&& match latest_node_of(s.nodes, v.node_id) {
                Some(n) => n.pubkey == v.pubkey,
                None => false,
            }
            &&& forall|k: int|
                0 <= k < s.joins.len() && (#[trigger] s.joins[k]).job_id == id ==> s.joins[k].node_id != v.node_id
                    && s.joins[k].party_id != v.party_id
        },
{
}

/// A result offered for job `id` is admitted exactly when its signature
/// verifies, it names job `id`, the store holds that job and the result names
/// its program, the store holds its node under the key it names, a join for
/// the job names this node as this party, and the node has no result for the
/// job yet.
pub proof fn lemma_result_admission(s: SpecStore, id: Seq<char>, v: SpecResultRecord)
    ensures
        result_verdict(s, id, v) is Admit <==> {
            &&& signature_valid::<ResultRecord>(v)
            &&& v.job_id == id
            &&& match latest_job_of(s.jobs, id) {
                Some(j) => v.program_id == j.program_id,
                None => false,
            }
            &&& match latest_node_of(s.nodes, v.node_id) {
                Some(n) => n.pubkey == v.pubkey,
                None => false,
            }
            &&& exists|k: int|
                0 <= k < s.joins.len() && (#[trigger] s.joins[k]).job_id == id && s.joins[k].node_id == v.node_id
                    && s.joins[k].party_id == v.party_id
            &&& forall|k: int|
                0 <= k < s.results.len() && (#[trigger] s.results[k]).job_id == id ==> s.results[k].node_id != v.node_id
        },
{
}

/// An empty store is consistent.
pub proof fn lemma_empty_store_consistent(s: SpecStore)
    requires
        s.nodes.len() == 0,
        s.jobs.len() == 0,
        s.joins.len() == 0,
        s.results.len() == 0,
    ensures
        consistent(s),
{
}

/// Admitting a node announcement keeps the store consistent.
pub proof fn lemma_node_admission_keeps_consistency(s: SpecStore, v: SpecNodeRecord)
    requires
        consistent(s),
        node_verdict(s, v) is Admit,
    ensures
        consistent(SpecStore { nodes: s.nodes.push(v), ..s }),
{
    let t = SpecStore { nodes: s.nodes.push(v), ..s };
    assert forall|i: int| 0 <= i < t.joins.len() implies join_refers(t, #[trigger] t.joins[i]) by {
        assert(join_refers(s, s.joins[i]));
        lemma_latest_node_push(s.nodes, v, s.joins[i].node_id);
    }
    assert forall|i: int| 0 <= i < t.results.len() implies result_refers(t, #[trigger] t.results[i]) by {
        assert(result_refers(s, s.results[i]));
        lemma_latest_node_push(s.nodes, v, s.results[i].node_id);
    }
}

/// Admitting a job proposal keeps the store consistent: the new job's id is
/// fresh.
pub proof fn lemma_job_admission_keeps_consistency(s: SpecStore, v: SpecJobRecord)
    requires
        consistent(s),
        job_verdict(s, v) is Admit,
    ensures
        consistent(SpecStore { jobs: s.jobs.push(v), ..s }),
{
    lemma_no_latest_job(s.jobs, v.job_id);
    let js = s.jobs.push(v);
    let t = SpecStore { jobs: js, ..s };
    assert forall|i: int| 0 <= i < js.len() implies job_shape_valid(#[trigger] js[i]) by {
        if i < s.jobs.len() {
            assert(js[i] == s.jobs[i]);
        }
    }
    assert forall|i: int| 0 <= i < t.joins.len() implies join_refers(t, #[trigger] t.joins[i]) by {
        assert(join_refers(s, s.joins[i]));
        lemma_latest_job_push(s.jobs, v, s.joins[i].job_id);
    }
    assert forall|i: int| 0 <= i < t.results.len() implies result_refers(t, #[trigger] t.results[i]) by {
        assert(result_refers(s, s.results[i]));
        lemma_latest_job_push(s.jobs, v, s.results[i].job_id);
    }
    assert forall|a: int, b: int| 0 <= a < b < js.len() implies (#[trigger] js[a]).job_id != (#[trigger] js[b]).job_id by {
        if b == s.jobs.len() {
            assert(js[a] == s.jobs[a]);
        } else {
            assert(js[a] == s.jobs[a] && js[b] == s.jobs[b]);
        }
    }
}

/// Admitting a join keeps the store consistent: no committee gets a node or a
/// party twice, and every result stays backed by its join.
pub proof fn lemma_join_admission_keeps_consistency(s: SpecStore, v: SpecJoinRecord)
    requires
        consistent(s),
        join_verdict(s, v.job_id, v) is Admit,
    ensures
        consistent(SpecStore { joins: s.joins.push(v), ..s }),
{
    let js = s.joins.push(v);
    assert forall|a: int, b: int|
        0 <= a < b < js.len() && (#[trigger] js[a]).job_id == (#[trigger] js[b]).job_id
        implies js[a].node_id != js[b].node_id && js[a].party_id != js[b].party_id by {
        assert(js[a] == s.joins[a]);
        if b == s.joins.len() {
            assert(!join_taken(s.joins, v.job_id, v));
            assert(!(s.joins[a].job_id == v.job_id && (s.joins[a].node_id == v.node_id
                || s.joins[a].party_id == v.party_id)));
        } else {
            assert(js[b] == s.joins[b]);
        }
    }
    let t = SpecStore { joins: js, ..s };
    assert forall|i: int| 0 <= i < t.results.len() implies result_has_join(t.joins, (#[trigger] t.results[i]).job_id, t.results[i]) by {
        let r = s.results[i];
        assert(result_has_join(s.joins, r.job_id, r));
        let k = choose|k: int|
            0 <= k < s.joins.len() && (#[trigger] s.joins[k]).job_id == r.job_id && s.joins[k].node_id == r.node_id
                && s.joins[k].party_id == r.party_id;
        assert(js[k] == s.joins[k]);
    }
    assert forall|i: int| 0 <= i < t.joins.len() implies join_refers(t, #[trigger] t.joins[i]) by {
        if i < s.joins.len() {
            assert(t.joins[i] == s.joins[i]);
            assert(join_refers(s, s.joins[i]));
        }
    }
    assert forall|i: int| 0 <= i < t.results.len() implies result_refers(t, #[trigger] t.results[i]) by {
        assert(result_refers(s, s.results[i]));
    }
}

/// Admitting a result keeps the store consistent: it is the node's only
/// result for the job, and a join backs it.
pub proof fn lemma_result_admission_keeps_consistency(s: SpecStore, v: SpecResultRecord)
    requires
        consistent(s),
        result_verdict(s, v.job_id, v) is Admit,
    ensures
        consistent(SpecStore { results: s.results.push(v), ..s }),
{
    let rs = s.results.push(v);
    assert forall|a: int, b: int|
        0 <= a < b < rs.len() && (#[trigger] rs[a]).job_id == (#[trigger] rs[b]).job_id
        implies rs[a].node_id != rs[b].node_id by {
        assert(rs[a] == s.results[a]);
        if b == s.results.len() {
            assert(!result_taken(s.results, v.job_id, v));
            assert(!(s.results[a].job_id == v.job_id && s.results[a].node_id == v.node_id));
        } else {
            assert(rs[b] == s.results[b]);
        }
    }
    let t = SpecStore { results: rs, ..s };
    assert forall|i: int| 0 <= i < t.results.len() implies result_has_join(t.joins, (#[trigger] t.results[i]).job_id, t.results[i]) by {
        if i < s.results.len() {
            assert(rs[i] == s.results[i]);
        }
    }
    assert forall|i: int| 0 <= i < t.joins.len() implies join_refers(t, #[trigger] t.joins[i]) by {
        assert(join_refers(s, s.joins[i]));
    }
    assert forall|i: int| 0 <= i < t.results.len() implies result_refers(t, #[trigger] t.results[i]) by {
        if i < s.results.len() {
            assert(rs[i] == s.results[i]);
            assert(result_refers(s, s.results[i]));
        }
    }
}

/// Once a node id is known, admitting announcements never rebinds it to
/// another key: the latest record for every id keeps its key.
pub proof fn lemma_node_admission_keeps_key_binding(s: SpecStore, v: SpecNodeRecord, id: Seq<char>)
    requires
        node_verdict(s, v) is Admit,
        latest_node_of(s.nodes, id) is Some,
    ensures
        latest_node_of(s.nodes.push(v), id) is Some,
        latest_node_of(s.nodes.push(v), id)->0.pubkey == latest_node_of(s.nodes, id)->0.pubkey,
{
    assert(s.nodes.push(v).drop_last() =~= s.nodes);
}

/// The 32 bytes of `v` as an array.
fn key_array(v: &Vec<u8>) -> (a: [u8; 32])
    requires
        v@.len() == 32,
    ensures
        a@ == v@,
{
    let mut a: [u8; 32] = [0u8; 32];
    let mut i: usize = 0;
    while i < 32
        invariant
            v@.len() == 32,
            i <= 32,
            a@.len() == 32,
            forall|k: int| 0 <= k < i ==> a@[k] == v@[k],
        decreases 32 - i,
    {
        a[i] = v[i];
        i = i + 1;
    }
    assert(a@ =~= v@);
    a
}

impl Store {
    /// Admits a node announcement: checks it as `check_node` does and, when it
    /// passes, appends it; otherwise the store is left as it was.
    pub fn commit_node(&mut self, rec: NodeRecord) -> (r: Result<(), String>)
        ensures
            answers::<NodeRecord>(node_verdict(old(self)@, rec@), rec@, r),
            final(self)@ == (if r is Ok { SpecStore { nodes: old(self)@.nodes.push(rec@), ..old(self)@ } } else { old(self)@ }),
            all_authentic(final(self)@),
            consistent(old(self)@) ==> consistent(final(self)@),
    {
        self.witness_authentic();
        self.check_node(&rec)?;
        proof {
            if consistent(self@) {
                lemma_node_admission_keeps_consistency(self@, rec@);
            }
        }
        self.push_nodes(rec);
        Ok(())
    }

    /// Admits a job proposal: checks it as `check_job` does and, when it
    /// passes, appends it; otherwise the store is left as it was.
    pub fn commit_job(&mut self, rec: JobRecord) -> (r: Result<(), String>)
        ensures
            answers::<JobRecord>(job_verdict(old(self)@, rec@), rec@, r),
            final(self)@ == (if r is Ok { SpecStore { jobs: old(self)@.jobs.push(rec@), ..old(self)@ } } else { old(self)@ }),
            all_authentic(final(self)@),
            consistent(old(self)@) ==> consistent(final(self)@),
    {
        self.witness_authentic();
        self.check_job(&rec)?;
        proof {
            if consistent(self@) {
                lemma_job_admission_keeps_consistency(self@, rec@);
            }
        }
        self.push_jobs(rec);
        Ok(())
    }

    /// Admits a join for job `id`: checks it as `check_join` does and, when it
    /// passes, appends it; otherwise the store is left as it was.
    pub fn commit_join(&mut self, id: &str, rec: JoinRecord) -> (r: Result<(), String>)
        ensures
            answers::<JoinRecord>(join_verdict(old(self)@, id@, rec@), rec@, r),
            final(self)@ == (if r is Ok { SpecStore { joins: old(self)@.joins.push(rec@), ..old(self)@ } } else { old(self)@ }),
            all_authentic(final(self)@),
            consistent(old(self)@) ==> consistent(final(self)@),
    {
        self.witness_authentic();
        self.check_join(id, &rec)?;
        proof {
            if consistent(self@) {
                lemma_join_admission_keeps_consistency(self@, rec@);
            }
        }
        self.push_joins(rec);
        Ok(())
    }

    /// Admits a result for job `id`: checks it as `check_result` does and,
    /// when it passes, appends it; otherwise the store is left as it was.
    pub fn commit_result(&mut self, id: &str, rec: ResultRecord) -> (r: Result<(), String>)
        ensures
            answers::<ResultRecord>(result_verdict(old(self)@, id@, rec@), rec@, r),
            final(self)@ == (if r is Ok { SpecStore { results: old(self)@.results.push(rec@), ..old(self)@ } } else { old(self)@ }),
            all_authentic(final(self)@),
            consistent(old(self)@) ==> consistent(final(self)@),
    {
        self.witness_authentic();
        self.check_result(id, &rec)?;
        proof {
            if consistent(self@) {
                lemma_result_admission_keeps_consistency(self@, rec@);
            }
        }
        self.push_results(rec);
        Ok(())
    }

    /// Checks a node announcement without changing the store.
    #[verifier::loop_isolation(false)]
    pub fn check_node(&self, rec: &NodeRecord) -> (r: Result<(), String>)
        ensures
            answers::<NodeRecord>(node_verdict(self@, rec@), rec@, r),
    {
        verify_signature(rec)?;
        let key = match hex_decode(rec.pubkey.as_str()) {
            Ok(bytes) => bytes,
            Err(_) => {
                return Err("pubkey is not 32-byte hex".to_owned());
            },
        };
        if key.len() != 32 {
            return Err("pubkey is not 32-byte hex".to_owned());
        }
        let key = key_array(&key);
        let id = node_id_for(&key);
        if !text_eq(id.as_str(), rec.node_id.as_str()) {
            return Err("node_id does not match pubkey".to_owned());
        }
        if rec.max_parties == 0 {
            return Err("invalid node capabilities".to_owned());
        }
        let mut i: usize = 0;
        while i < rec.supported_thresholds.len()
            invariant
                i <= rec@.supported_thresholds.len(),
                rec.max_parties != 0,
                forall|k: int| 0 <= k < i ==> 3 * #[trigger] rec@.supported_thresholds[k] + 1 <= rec.max_parties,
            decreases rec@.supported_thresholds.len() - i,
        {
            let t = rec.supported_thresholds[i];
            if (t as u128) * 3 + 1 > rec.max_parties as u128 {
                return Err("invalid node capabilities".to_owned());
            }
            i = i + 1;
        }
        match latest_node(self, rec.node_id.as_str()) {
            Some(old) => {
                if !text_eq(old.pubkey.as_str(), rec.pubkey.as_str()) {
                    return Err("node identity is bound to another key".to_owned());
                }
            },
            None => {},
        }
        Ok(())
    }

    /// Checks a job proposal without changing the store.
    pub fn check_job(&self, rec: &JobRecord) -> (r: Result<(), String>)
        ensures
            answers::<JobRecord>(job_verdict(self@, rec@), rec@, r),
    {
        verify_signature(rec)?;
        if (rec.n_parties as u128) < (rec.threshold as u128) * 3 + 1 || rec.n_parties == 0
            || rec.state != JobState::Open {
            return Err("job must be open and satisfy n >= 3t + 1".to_owned());
        }
        match job(self, rec.job_id.as_str()) {
            Some(old) => {
                if !old.same_as(rec) {
                    return Err("job_id already has a different record".to_owned());
                }
                Err("job_id already exists".to_owned())
            },
            None => Ok(()),
        }
    }

    /// Checks a join offered for job `id` without changing the store.
    #[verifier::loop_isolation(false)]
    pub fn check_join(&self, id: &str, rec: &JoinRecord) -> (r: Result<(), String>)
        ensures
            answers::<JoinRecord>(join_verdict(self@, id@, rec@), rec@, r),
    {
        verify_signature(rec)?;
        if !text_eq(rec.job_id.as_str(), id) {
            return Err("path job id does not match record".to_owned());
        }
        let j = match job(self, id) {
            Some(j) => j,
            None => {
                return Err("unknown job".to_owned());
            },
        };
        let n = match latest_node(self, rec.node_id.as_str()) {
            Some(n) => n,
            None => {
                return Err("unknown node".to_owned());
            },
        };
        if j.state != JobState::Open && j.state != JobState::Forming {
            return Err("job is not accepting joins".to_owned());
        }
        if !text_eq(n.pubkey.as_str(), rec.pubkey.as_str()) || rec.party_id >= j.n_parties {
            return Err("join key or party is invalid".to_owned());
        }
        let joins = self.joins();
        let ghost model = self@.joins;
        let mut i: usize = 0;
        while i < joins.len()
            invariant
                joins@.map_values(|x: JoinRecord| x@) == model,
                i <= joins@.len(),
                forall|k: int|
                    0 <= k < i ==> !((#[trigger] model[k]).job_id == id@ && (model[k].node_id == rec@.node_id
                        || model[k].party_id == rec@.party_id)),
            decreases joins@.len() - i,
        {
            let x = &joins[i];
            if text_eq(x.job_id.as_str(), id) && (text_eq(x.node_id.as_str(), rec.node_id.as_str())
                || x.party_id == rec.party_id) {
                assert(model[i as int] == x@);
                return Err("node or party already joined".to_owned());
            }
            i = i + 1;
        }
        Ok(())
    }

    /// Checks a result offered for job `id` without changing the store.
    #[verifier::loop_isolation(false)]
    pub fn check_result(&self, id: &str, rec: &ResultRecord) -> (r: Result<(), String>)
        ensures
            answers::<ResultRecord>(result_verdict(self@, id@, rec@), rec@, r),
    {
        verify_signature(rec)?;
        if !text_eq(rec.job_id.as_str(), id) {
            return Err("path job id does not match record".to_owned());
        }
        let j = match job(self, id) {
            Some(j) => j,
            None => {
                return Err("unknown job".to_owned());
            },
        };
        let n = match latest_node(self, rec.node_id.as_str()) {
            Some(n) => n,
            None => {
                return Err("unknown node".to_owned());
            },
        };
        if !text_eq(n.pubkey.as_str(), rec.pubkey.as_str()) || !text_eq(rec.program_id.as_str(), j.program_id.as_str()) {
            return Err("result key or program is invalid".to_owned());
        }
        let joins = self.joins();
        let ghost jm = self@.joins;
        let mut found = false;
        let mut i: usize = 0;
        while i < joins.len()
            invariant
                joins@.map_values(|x: JoinRecord| x@) == jm,
                i <= joins@.len(),
                !found ==> forall|k: int|
                    0 <= k < i ==> !((#[trigger] jm[k]).job_id == id@ && jm[k].node_id == rec@.node_id
                        && jm[k].party_id == rec@.party_id),
                found ==> result_has_join(jm, id@, rec@),
            decreases joins@.len() - i,
        {
            let x = &joins[i];
            if text_eq(x.job_id.as_str(), id) && text_eq(x.node_id.as_str(), rec.node_id.as_str())
                && x.party_id == rec.party_id {
                assert(jm[i as int] == x@);
                found = true;
            }
            i = i + 1;
        }
        if !found {
            return Err("result has no matching join".to_owned());
        }
        let results = self.results();
        let ghost rm = self@.results;
        let mut i: usize = 0;
        while i < results.len()
            invariant
                results@.map_values(|x: ResultRecord| x@) == rm,
                i <= results@.len(),
                forall|k: int| 0 <= k < i ==> !((#[trigger] rm[k]).job_id == id@ && rm[k].node_id == rec@.node_id),
            decreases results@.len() - i,
        {
            let x = &results[i];
            if text_eq(x.job_id.as_str(), id) && text_eq(x.node_id.as_str(), rec.node_id.as_str()) {
                assert(rm[i as int] == x@);
                return Err("node already posted a result".to_owned());
            }
            i = i + 1;
        }
        Ok(())
    }
}

} // verus!
