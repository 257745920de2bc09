//! The evidence bundle for one job: the service hands it out only once the
//! job's lifecycle is complete and every party opened the same value.
use vstd::prelude::*;
use crate::records::{
    EvidenceBundle, JobRecord, JoinRecord, NodeRecord, ResultRecord, SpecEvidenceBundle,
    SpecJoinRecord, SpecNodeRecord, SpecResultRecord, BUNDLE_VERSION,
};
use crate::signing::signature_valid;
use crate::store::{
    all_authentic, job, joins_authentic, latest_job_of, latest_node, latest_node_of,
    nodes_authentic, results_authentic, SpecStore, Store,
};
use crate::text::text_eq;

verus! {

/// Why the service gives no bundle for a job.
#[derive(Debug, Clone, Copy, PartialEq, Eq, Structural)]
pub enum BundleRefusal {
    /// No job has the id.
    UnknownJob,
    /// The job does not have exactly `n_parties` joins and results.
    Incomplete,
    /// Two parties opened different values.
    Disagree,
}

impl BundleRefusal {
    /// The HTTP status the service answers with.
    pub fn status(&self) -> (code: u16)
        ensures
            code == (match *self {
                BundleRefusal::UnknownJob => 404u16,
                _ => 409u16,
            }),
    {
        match self {
            BundleRefusal::UnknownJob => 404,
            _ => 409,
        }
    }

    /// The error message the service answers with.
    pub fn message(&self) -> (m: &'static str)
        ensures
            m@ == (match *self {
                BundleRefusal::UnknownJob => "unknown job"@,
                BundleRefusal::Incomplete => "job lifecycle is incomplete"@,
                BundleRefusal::Disagree => "results disagree"@,
            }),
    {
        match self {
            BundleRefusal::UnknownJob => "unknown job",
            BundleRefusal::Incomplete => "job lifecycle is incomplete",
            BundleRefusal::Disagree => "results disagree",
        }
    }
}

/// The joins for job `id`, in admission order.
pub open spec fn joins_for(joins: Seq<SpecJoinRecord>, id: Seq<char>) -> Seq<SpecJoinRecord>
    decreases joins.len(),
{
    if joins.len() == 0 {
        Seq::empty()
    } else if joins.last().job_id == id {
        joins_for(joins.drop_last(), id).push(joins.last())
    } else {
        joins_for(joins.drop_last(), id)
    }
}

/// The results for job `id`, in admission order.
pub open spec fn results_for(results: Seq<SpecResultRecord>, id: Seq<char>) -> Seq<SpecResultRecord>
    decreases results.len(),
{
    if results.len() == 0 {
        Seq::empty()
    } else if results.last().job_id == id {
        results_for(results.drop_last(), id).push(results.last())
    } else {
        results_for(results.drop_last(), id)
    }
}

/// For each join in order, the latest record of its node, where there is one.
pub open spec fn nodes_for(nodes: Seq<SpecNodeRecord>, joins: Seq<SpecJoinRecord>) -> Seq<SpecNodeRecord>
    decreases joins.len(),
{
    if joins.len() == 0 {
        Seq::empty()
    } else {
        match latest_node_of(nodes, joins.last().node_id) {
            Some(n) => nodes_for(nodes, joins.drop_last()).push(n),
            None => nodes_for(nodes, joins.drop_last()),
        }
    }
}

/// Every result opened the same value as the one before it.
pub open spec fn values_agree(results: Seq<SpecResultRecord>) -> bool {
    forall|i: int| 0 < i < results.len() ==> (#[trigger] results[i]).value == results[i - 1].value
}

/// What the service answers for the bundle of job `id`.
pub open spec fn bundle_outcome(s: SpecStore, id: Seq<char>) -> Result<SpecEvidenceBundle, BundleRefusal> {
    match latest_job_of(s.jobs, id) {
        None => Err(BundleRefusal::UnknownJob),
        Some(j) => {
            let joins = joins_for(s.joins, id);
            let results = results_for(s.results, id);
            if joins.len() != j.n_parties || results.len() != j.n_parties {
                Err(BundleRefusal::Incomplete)
            } else if !values_agree(results) {
                Err(BundleRefusal::Disagree)
            } else {
                Ok(
                    SpecEvidenceBundle {
                        version: 1,
                        job: j,
                        nodes: nodes_for(s.nodes, joins),
                        joins,
                        results,
                    },
                )
            }
        },
    }
}

/// Everything needed to verify job `id` offline, or why there is none yet.
#[verifier::loop_isolation(false)]
pub fn bundle(s: &Store, id: &str) -> (r: Result<EvidenceBundle, BundleRefusal>)
    ensures
        match r {
            Ok(b) => bundle_outcome(s@, id@) == Ok::<SpecEvidenceBundle, BundleRefusal>(b@),
            Err(e) => bundle_outcome(s@, id@) == Err::<SpecEvidenceBundle, BundleRefusal>(e),
        },
{
    let j = match job(s, id) {
        Some(j) => j.duplicate(),
        None => {
            return Err(BundleRefusal::UnknownJob);
        },
    };
    let all_joins = s.joins();
    let ghost jm = s@.joins;
    let mut joins: Vec<JoinRecord> = Vec::new();
    let mut i: usize = 0;
    while i < all_joins.len()
        invariant
            all_joins@.map_values(|x: JoinRecord| x@) == jm,
            i <= all_joins@.len(),
            joins@.map_values(|x: JoinRecord| x@) == joins_for(jm.subrange(0, i as int), id@),
        decreases all_joins@.len() - i,
    {
        let ghost before = jm.subrange(0, i as int);
        assert(jm.subrange(0, i + 1).drop_last() =~= before);
        if text_eq(all_joins[i].job_id.as_str(), id) {
            joins.push(all_joins[i].duplicate());
            assert(joins@.map_values(|x: JoinRecord| x@) =~= joins_for(before, id@).push(jm[i as int]));
        }
        i = i + 1;
    }
    assert(jm.subrange(0, jm.len() as int) =~= jm);
    let all_results = s.results();
    let ghost rm = s@.results;
    let mut results: Vec<ResultRecord> = Vec::new();
    let mut i: usize = 0;
    while i < all_results.len()
        invariant
            all_results@.map_values(|x: ResultRecord| x@) == rm,
            i <= all_results@.len(),
            results@.map_values(|x: ResultRecord| x@) == results_for(rm.subrange(0, i as int), id@),
        decreases all_results@.len() - i,
    {
        let ghost before = rm.subrange(0, i as int);
        assert(rm.subrange(0, i + 1).drop_last() =~= before);
        if text_eq(all_results[i].job_id.as_str(), id) {
            results.push(all_results[i].duplicate());
            assert(results@.map_values(|x: ResultRecord| x@) =~= results_for(before, id@).push(rm[i as int]));
        }
        i = i + 1;
    }
    assert(rm.subrange(0, rm.len() as int) =~= rm);
    let ghost jv = joins@.map_values(|x: JoinRecord| x@);
    let mut nodes: Vec<NodeRecord> = Vec::new();
    let mut i: usize = 0;
    while i < joins.len()
        invariant
            jv == joins@.map_values(|x: JoinRecord| x@),
            i <= joins@.len(),
            nodes@.map_values(|x: NodeRecord| x@) == nodes_for(s@.nodes, jv.subrange(0, i as int)),
        decreases joins@.len() - i,
    {
        let ghost before = jv.subrange(0, i as int);
        assert(jv.subrange(0, i + 1).drop_last() =~= before);
        assert(jv.subrange(0, i + 1).last() == joins@[i as int]@);
        match latest_node(s, joins[i].node_id.as_str()) {
            Some(n) => {
                nodes.push(n.duplicate());
                assert(nodes@.map_values(|x: NodeRecord| x@) =~= nodes_for(s@.nodes, before).push(n@));
            },
            None => {},
        }
        i = i + 1;
    }
    assert(jv.subrange(0, jv.len() as int) =~= jv);
    if joins.len() != j.n_parties || results.len() != j.n_parties {
        return Err(BundleRefusal::Incomplete);
    }
    let ghost rv = results@.map_values(|x: ResultRecord| x@);
    let mut i: usize = 1;
    while i < results.len()
        invariant
            rv == results@.map_values(|x: ResultRecord| x@),
            1 <= i,
            forall|k: int| 0 < k < i && k < rv.len() ==> (#[trigger] rv[k]).value == rv[k - 1].value,
        decreases results@.len() - i,
    {
        if !text_eq(results[i].value.as_str(), results[i - 1].value.as_str()) {
            assert(rv[i as int] == results@[i as int]@ && rv[i - 1] == results@[i - 1]@);
            assert(!values_agree(rv));
            return Err(BundleRefusal::Disagree);
        }
        i = i + 1;
    }
    let b = EvidenceBundle { version: BUNDLE_VERSION, job: j, nodes, joins, results };
    Ok(b)
}

/// Each join picked for job `id` is one of the joins given, and names `id`.
proof fn lemma_joins_for(joins: Seq<SpecJoinRecord>, id: Seq<char>)
    ensures
        forall|i: int| 0 <= i < joins_for(joins, id).len() ==> (#[trigger] joins_for(joins, id)[i]).job_id == id
            && joins.contains(joins_for(joins, id)[i]),
    decreases joins.len(),
{
    if joins.len() > 0 {
        lemma_joins_for(joins.drop_last(), id);
        let rest = joins_for(joins.drop_last(), id);
        assert forall|i: int| 0 <= i < joins_for(joins, id).len() implies (#[trigger] joins_for(joins, id)[i]).job_id == id
            && joins.contains(joins_for(joins, id)[i]) by {
            if i < rest.len() {
                let k = choose|k: int| 0 <= k < joins.drop_last().len() && joins.drop_last()[k] == rest[i];
                assert(joins[k] == rest[i]);
            } else {
                assert(joins[joins.len() - 1] == joins.last());
            }
        }
    }
}

/// Each result picked for job `id` is one of the results given, and names `id`.
proof fn lemma_results_for(results: Seq<SpecResultRecord>, id: Seq<char>)
    ensures
        forall|i: int| 0 <= i < results_for(results, id).len() ==> (#[trigger] results_for(results, id)[i]).job_id == id
            && results.contains(results_for(results, id)[i]),
    decreases results.len(),
{
    if results.len() > 0 {
        lemma_results_for(results.drop_last(), id);
        let rest = results_for(results.drop_last(), id);
        assert forall|i: int| 0 <= i < results_for(results, id).len() implies (#[trigger] results_for(results, id)[i]).job_id == id
            && results.contains(results_for(results, id)[i]) by {
            if i < rest.len() {
                let k = choose|k: int| 0 <= k < results.drop_last().len() && results.drop_last()[k] == rest[i];
                assert(results[k] == rest[i]);
            } else {
                assert(results[results.len() - 1] == results.last());
            }
        }
    }
}

/// The latest node record for an id is one of the records given, with that id.
proof fn lemma_latest_node_of(nodes: Seq<SpecNodeRecord>, id: Seq<char>)
    ensures
        latest_node_of(nodes, id) matches Some(n) ==> nodes.contains(n) && n.node_id == id,
    decreases nodes.len(),
{
    if nodes.len() > 0 {
        lemma_latest_node_of(nodes.drop_last(), id);
        if nodes.last().node_id != id {
            if let Some(n) = latest_node_of(nodes.drop_last(), id) {
                let k = choose|k: int| 0 <= k < nodes.drop_last().len() && nodes.drop_last()[k] == n;
                assert(nodes[k] == n);
            }
        } else {
            assert(nodes[nodes.len() - 1] == nodes.last());
        }
    }
}

/// The latest job record for an id is one of the records given, with that id.
proof fn lemma_latest_job_of(jobs: Seq<crate::records::SpecJobRecord>, id: Seq<char>)
    ensures
        latest_job_of(jobs, id) matches Some(j) ==> jobs.contains(j) && j.job_id == id,
    decreases jobs.len(),
{
    if jobs.len() > 0 {
        lemma_latest_job_of(jobs.drop_last(), id);
        if jobs.last().job_id != id {
            if let Some(j) = latest_job_of(jobs.drop_last(), id) {
                let k = choose|k: int| 0 <= k < jobs.drop_last().len() && jobs.drop_last()[k] == j;
                assert(jobs[k] == j);
            }
        } else {
            assert(jobs[jobs.len() - 1] == jobs.last());
        }
    }
}

/// Each node picked for a list of joins is one of the records given.
proof fn lemma_nodes_for(nodes: Seq<SpecNodeRecord>, joins: Seq<SpecJoinRecord>)
    ensures
        forall|i: int| 0 <= i < nodes_for(nodes, joins).len() ==> nodes.contains(#[trigger] nodes_for(nodes, joins)[i]),
    decreases joins.len(),
{
    if joins.len() > 0 {
        lemma_nodes_for(nodes, joins.drop_last());
        lemma_latest_node_of(nodes, joins.last().node_id);
        let rest = nodes_for(nodes, joins.drop_last());
        assert forall|i: int| 0 <= i < nodes_for(nodes, joins).len() implies nodes.contains(#[trigger] nodes_for(nodes, joins)[i]) by {
            if i < rest.len() {
                assert(nodes_for(nodes, joins)[i] == rest[i]);
            }
        }
    }
}

/// A bundle the service hands out is complete and coherent: it is for the
/// job asked about, it holds exactly `n_parties` joins and results, all for
/// that job, every party opened the same value, and, as every record the store
/// holds is authentic, every record in the bundle carries a signature that
/// verifies.
pub proof fn lemma_bundle_complete(s: SpecStore, id: Seq<char>)
    requires
        all_authentic(s),
        bundle_outcome(s, id) is Ok,
    ensures
        ({
            let b = bundle_outcome(s, id)->Ok_0;
            &&& b.version == 1
            &&& b.job.job_id == id
            &&& b.joins.len() == b.job.n_parties
            &&& b.results.len() == b.job.n_parties
            &&& forall|i: int| 0 <= i < b.joins.len() ==> (#[trigger] b.joins[i]).job_id == id
            &&& forall|i: int| 0 <= i < b.results.len() ==> (#[trigger] b.results[i]).job_id == id
            &&& values_agree(b.results)
            &&& signature_valid::<JobRecord>(b.job)
            &&& nodes_authentic(b.nodes)
            &&& joins_authentic(b.joins)
            &&& results_authentic(b.results)
        }),
{
    let b = bundle_outcome(s, id)->Ok_0;
    lemma_latest_job_of(s.jobs, id);
    lemma_joins_for(s.joins, id);
    lemma_results_for(s.results, id);
    lemma_nodes_for(s.nodes, joins_for(s.joins, id));
    assert(nodes_authentic(b.nodes)) by {
        assert forall|i: int| 0 <= i < b.nodes.len() implies signature_valid::<NodeRecord>(#[trigger] b.nodes[i]) by {
            let k = choose|k: int| 0 <= k < s.nodes.len() && s.nodes[k] == b.nodes[i];
        }
    }
    assert(joins_authentic(b.joins)) by {
        assert forall|i: int| 0 <= i < b.joins.len() implies signature_valid::<JoinRecord>(#[trigger] b.joins[i]) by {
            let k = choose|k: int| 0 <= k < s.joins.len() && s.joins[k] == b.joins[i];
        }
    }
    assert(results_authentic(b.results)) by {
        assert forall|i: int| 0 <= i < b.results.len() implies signature_valid::<ResultRecord>(#[trigger] b.results[i]) by {
            let k = choose|k: int| 0 <= k < s.results.len() && s.results[k] == b.results[i];
        }
    }
    let k = choose|k: int| 0 <= k < s.jobs.len() && s.jobs[k] == b.job;
}

/// When each result opened the same value as the one before it, every result
/// opened the value of the first.
proof fn lemma_value_of_first(r: Seq<SpecResultRecord>, j: int)
    requires
        values_agree(r),
        0 <= j < r.len(),
    ensures
        r[j].value == r[0].value,
    decreases j,
{
    if j > 0 {
        lemma_value_of_first(r, j - 1);
        assert(r[j].value == r[j - 1].value);
    }
}

/// A bundle is handed out only when every two of its results opened the same
/// value; a job whose joins and results are complete is refused as
/// disagreeing only when two of its results opened different values; and a
/// complete job whose results all agree gets its bundle.
pub proof fn lemma_bundle_agreement(s: SpecStore, id: Seq<char>)
    ensures
        bundle_outcome(s, id) is Ok ==> {
            let b = bundle_outcome(s, id)->Ok_0;
            forall|i: int, j: int|
                0 <= i < b.results.len() && 0 <= j < b.results.len() ==> (#[trigger] b.results[i]).value
                    == (#[trigger] b.results[j]).value
        },
        bundle_outcome(s, id) == Err::<SpecEvidenceBundle, BundleRefusal>(BundleRefusal::Disagree) ==> exists|i: int, j: int|
            0 <= i < results_for(s.results, id).len() && 0 <= j < results_for(s.results, id).len()
                && (#[trigger] results_for(s.results, id)[i]).value != (#[trigger] results_for(s.results, id)[j]).value,
        (latest_job_of(s.jobs, id) matches Some(job) && joins_for(s.joins, id).len() == job.n_parties
            && results_for(s.results, id).len() == job.n_parties && forall|i: int, j: int|
            0 <= i < results_for(s.results, id).len() && 0 <= j < results_for(s.results, id).len()
                ==> (#[trigger] results_for(s.results, id)[i]).value == (#[trigger] results_for(s.results, id)[j]).value)
            ==> bundle_outcome(s, id) is Ok,
{
    let r = results_for(s.results, id);
    if bundle_outcome(s, id) is Ok {
        let b = bundle_outcome(s, id)->Ok_0;
        assert(b.results == r);
        assert forall|i: int, j: int| 0 <= i < r.len() && 0 <= j < r.len() implies (#[trigger] r[i]).value
            == (#[trigger] r[j]).value by {
            lemma_value_of_first(r, i);
            lemma_value_of_first(r, j);
        }
    }
    if bundle_outcome(s, id) == Err::<SpecEvidenceBundle, BundleRefusal>(BundleRefusal::Disagree) {
        assert(!values_agree(r));
        let i = choose|i: int| 0 < i < r.len() && (#[trigger] r[i]).value != r[i - 1].value;
        assert(r[i].value != r[i - 1].value);
    }
    if forall|i: int, j: int| 0 <= i < r.len() && 0 <= j < r.len() ==> (#[trigger] r[i]).value == (#[trigger] r[j]).value {
        assert forall|i: int| 0 < i < r.len() implies (#[trigger] r[i]).value == r[i - 1].value by {
            assert(r[i].value == r[i - 1].value);
        }
    }
}

} // verus!
