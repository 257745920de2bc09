//! The lobby's store of admitted records, and the decisions the service makes
//! over it: which records it admits, which it looks up, what bundle it hands
//! out for a job.
//!
//! The store is an untrusted index: it never vouches for a record, it only
//! refuses to hold one whose signature does not verify.
use vstd::prelude::*;
use crate::records::{
    JobRecord, JoinRecord, NodeRecord, ResultRecord, SpecJobRecord, SpecJoinRecord,
    SpecNodeRecord, SpecResultRecord,
};
use crate::signing::{signature_error, signature_valid, verify_signature};
use crate::admission::consistent;
use crate::text::text_eq;

verus! {

/// The records the service holds, in the order they were admitted.
pub struct Store {
    nodes: Vec<NodeRecord>,
    jobs: Vec<JobRecord>,
    joins: Vec<JoinRecord>,
    results: Vec<ResultRecord>,
}

/// The model of a store.
pub struct SpecStore {
    pub nodes: Seq<SpecNodeRecord>,
    pub jobs: Seq<SpecJobRecord>,
    pub joins: Seq<SpecJoinRecord>,
    pub results: Seq<SpecResultRecord>,
}

impl View for Store {
    type V = SpecStore;

    closed spec fn view(&self) -> SpecStore {
        SpecStore {
            nodes: self.nodes@.map_values(|n: NodeRecord| n@),
            jobs: self.jobs@.map_values(|j: JobRecord| j@),
            joins: self.joins@.map_values(|j: JoinRecord| j@),
            results: self.results@.map_values(|r: ResultRecord| r@),
        }
    }
}

/// Every node record carries a signature that verifies.
pub open spec fn nodes_authentic(nodes: Seq<SpecNodeRecord>) -> bool {
    forall|i: int| 0 <= i < nodes.len() ==> signature_valid::<NodeRecord>(#[trigger] nodes[i])
}

/// Every job record carries a signature that verifies.
pub open spec fn jobs_authentic(jobs: Seq<SpecJobRecord>) -> bool {
    forall|i: int| 0 <= i < jobs.len() ==> signature_valid::<JobRecord>(#[trigger] jobs[i])
}

/// Every join record carries a signature that verifies.
pub open spec fn joins_authentic(joins: Seq<SpecJoinRecord>) -> bool {
    forall|i: int| 0 <= i < joins.len() ==> signature_valid::<JoinRecord>(#[trigger] joins[i])
}

/// Every result record carries a signature that verifies.
pub open spec fn results_authentic(results: Seq<SpecResultRecord>) -> bool {
    forall|i: int| 0 <= i < results.len() ==> signature_valid::<ResultRecord>(#[trigger] results[i])
}

/// Every record in the store carries a signature that verifies.
pub open spec fn all_authentic(s: SpecStore) -> bool {
    &&& nodes_authentic(s.nodes)
    &&& jobs_authentic(s.jobs)
    &&& joins_authentic(s.joins)
    &&& results_authentic(s.results)
}

/// The most recently admitted node record with the given id.
pub open spec fn latest_node_of(nodes: Seq<SpecNodeRecord>, id: Seq<char>) -> Option<SpecNodeRecord>
    decreases nodes.len(),
{
    if nodes.len() == 0 {
        None
    } else if nodes.last().node_id == id {
        Some(nodes.last())
    } else {
        latest_node_of(nodes.drop_last(), id)
    }
}

/// The most recently admitted job record with the given id.
pub open spec fn latest_job_of(jobs: Seq<SpecJobRecord>, id: Seq<char>) -> Option<SpecJobRecord>
    decreases jobs.len(),
{
    if jobs.len() == 0 {
        None
    } else if jobs.last().job_id == id {
        Some(jobs.last())
    } else {
        latest_job_of(jobs.drop_last(), id)
    }
}

/// The latest node record for `id` is the last record with that id: it is
/// one of the records, it has the id, and no later record has it; there is
/// none when no record has the id.
pub proof fn lemma_latest_node_is_last(nodes: Seq<SpecNodeRecord>, id: Seq<char>)
    ensures
        match latest_node_of(nodes, id) {
            Some(n) => exists|k: int|
                0 <= k < nodes.len() && #[trigger] nodes[k] == n && n.node_id == id && forall|j: int|
                    k < j < nodes.len() ==> (#[trigger] nodes[j]).node_id != id,
            None => forall|k: int| 0 <= k < nodes.len() ==> (#[trigger] nodes[k]).node_id != id,
        },
    decreases nodes.len(),
{
    if nodes.len() > 0 {
        let rest = nodes.drop_last();
        lemma_latest_node_is_last(rest, id);
        let last = nodes.len() - 1;
        if nodes[last].node_id == id {
            assert(nodes.last() == nodes[last]);
        } else {
            match latest_node_of(rest, id) {
                Some(n) => {
                    let k = choose|k: int|
                        0 <= k < rest.len() && #[trigger] rest[k] == n && n.node_id == id && forall|j: int|
                            k < j < rest.len() ==> (#[trigger] rest[j]).node_id != id;
                    assert(nodes[k] == rest[k]);
                    assert forall|j: int| k < j < nodes.len() implies (#[trigger] nodes[j]).node_id != id by {
                        if j < last {
                            assert(nodes[j] == rest[j]);
                        }
                    }
                },
                None => {
                    assert forall|k: int| 0 <= k < nodes.len() implies (#[trigger] nodes[k]).node_id != id by {
                        if k < last {
                            assert(nodes[k] == rest[k]);
                        }
                    }
                },
            }
        }
    }
}

/// The latest job record for `id` is the last record with that id: it is
/// one of the records, it has the id, and no later record has it; there is
/// none when no record has the id.
pub proof fn lemma_latest_job_is_last(jobs: Seq<SpecJobRecord>, id: Seq<char>)
    ensures
        match latest_job_of(jobs, id) {
            Some(n) => exists|k: int|
                0 <= k < jobs.len() && #[trigger] jobs[k] == n && n.job_id == id && forall|j: int|
                    k < j < jobs.len() ==> (#[trigger] jobs[j]).job_id != id,
            None => forall|k: int| 0 <= k < jobs.len() ==> (#[trigger] jobs[k]).job_id != id,
        },
    decreases jobs.len(),
{
    if jobs.len() > 0 {
        let rest = jobs.drop_last();
        lemma_latest_job_is_last(rest, id);
        let last = jobs.len() - 1;
        if jobs[last].job_id == id {
            assert(jobs.last() == jobs[last]);
        } else {
            match latest_job_of(rest, id) {
                Some(n) => {
                    let k = choose|k: int|
                        0 <= k < rest.len() && #[trigger] rest[k] == n && n.job_id == id && forall|j: int|
                            k < j < rest.len() ==> (#[trigger] rest[j]).job_id != id;
                    assert(jobs[k] == rest[k]);
                    assert forall|j: int| k < j < jobs.len() implies (#[trigger] jobs[j]).job_id != id by {
                        if j < last {
                            assert(jobs[j] == rest[j]);
                        }
                    }
                },
                None => {
                    assert forall|k: int| 0 <= k < jobs.len() implies (#[trigger] jobs[k]).job_id != id by {
                        if k < last {
                            assert(jobs[k] == rest[k]);
                        }
                    }
                },
            }
        }
    }
}

/// A record of any of the four kinds.
pub enum Record {
    Node(NodeRecord),
    Job(JobRecord),
    Join(JoinRecord),
    Result(ResultRecord),
}

impl Store {
    #[verifier::type_invariant]
    spec fn authentic(self) -> bool {
        all_authentic(self@)
    }

    /// An empty store.
    pub fn new() -> (s: Store)
        ensures
            s@.nodes.len() == 0,
            s@.jobs.len() == 0,
            s@.joins.len() == 0,
            s@.results.len() == 0,
            all_authentic(s@),
            consistent(s@),
    {
        let s = Store { nodes: Vec::new(), jobs: Vec::new(), joins: Vec::new(), results: Vec::new() };
        assert(all_authentic(s@));
        s
    }

    /// Every record in the store carries a signature that verifies.
    pub(crate) fn witness_authentic(&self)
        ensures
            all_authentic(self@),
    {
        proof {
            use_type_invariant(self);
        }
    }

    /// The node records, in the order they were admitted.
    pub(crate) fn nodes(&self) -> (v: &Vec<NodeRecord>)
        ensures
            v@.map_values(|n: NodeRecord| n@) == self@.nodes,
    {
        &self.nodes
    }

    /// The job records, in the order they were admitted.
    pub(crate) fn jobs(&self) -> (v: &Vec<JobRecord>)
        ensures
            v@.map_values(|j: JobRecord| j@) == self@.jobs,
    {
        &self.jobs
    }

    /// The join records, in the order they were admitted.
    pub(crate) fn joins(&self) -> (v: &Vec<JoinRecord>)
        ensures
            v@.map_values(|j: JoinRecord| j@) == self@.joins,
    {
        &self.joins
    }

    /// The result records, in the order they were admitted.
    pub(crate) fn results(&self) -> (v: &Vec<ResultRecord>)
        ensures
            v@.map_values(|r: ResultRecord| r@) == self@.results,
    {
        &self.results
    }


    /// Adds a record read back from storage, after checking its signature
    /// again; a record whose signature fails is refused and the store is left
    /// as it was.
    pub fn add_loaded(&mut self, record: Record) -> (r: Result<(), String>)
        ensures
            all_authentic(final(self)@),
            match record {
                Record::Node(n) => {
                    &&& r is Ok <==> signature_valid::<NodeRecord>(n@)
                    &&& r matches Err(e) ==> signature_error::<NodeRecord>(n@, e@)
                    &&& final(self)@.nodes == (if r is Ok { old(self)@.nodes.push(n@) } else { old(self)@.nodes })
                    &&& final(self)@.jobs == old(self)@.jobs
                    &&& final(self)@.joins == old(self)@.joins
                    &&& final(self)@.results == old(self)@.results
                },
                Record::Job(j) => {
                    &&& r is Ok <==> signature_valid::<JobRecord>(j@)
                    &&& r matches Err(e) ==> signature_error::<JobRecord>(j@, e@)
                    &&& final(self)@.jobs == (if r is Ok { old(self)@.jobs.push(j@) } else { old(self)@.jobs })
                    &&& final(self)@.nodes == old(self)@.nodes
                    &&& final(self)@.joins == old(self)@.joins
                    &&& final(self)@.results == old(self)@.results
                },
                Record::Join(j) => {
                    &&& r is Ok <==> signature_valid::<JoinRecord>(j@)
                    &&& r matches Err(e) ==> signature_error::<JoinRecord>(j@, e@)
                    &&& final(self)@.joins == (if r is Ok { old(self)@.joins.push(j@) } else { old(self)@.joins })
                    &&& final(self)@.nodes == old(self)@.nodes
                    &&& final(self)@.jobs == old(self)@.jobs
                    &&& final(self)@.results == old(self)@.results
                },
                Record::Result(x) => {
                    &&& r is Ok <==> signature_valid::<ResultRecord>(x@)
                    &&& r matches Err(e) ==> signature_error::<ResultRecord>(x@, e@)
                    &&& final(self)@.results == (if r is Ok { old(self)@.results.push(x@) } else { old(self)@.results })
                    &&& final(self)@.nodes == old(self)@.nodes
                    &&& final(self)@.jobs == old(self)@.jobs
                    &&& final(self)@.joins == old(self)@.joins
                },
            },
    {
        match record {
            Record::Node(n) => self.add_loaded_nodes(n),
            Record::Job(j) => self.add_loaded_jobs(j),
            Record::Join(j) => self.add_loaded_joins(j),
            Record::Result(x) => self.add_loaded_results(x),
        }
    }

    /// Appends a record whose signature verifies.
    pub(crate) fn push_nodes(&mut self, n: NodeRecord)
        requires
            signature_valid::<NodeRecord>(n@),
        ensures
            all_authentic(final(self)@),
            final(self)@.nodes == old(self)@.nodes.push(n@),
            final(self)@.jobs == old(self)@.jobs,
            final(self)@.joins == old(self)@.joins,
            final(self)@.results == old(self)@.results,
    {
        proof {
            use_type_invariant(&*self);
        }
        let ghost before = self@.nodes;
        let mut all = Vec::new();
        assert(all@.map_values(|r: NodeRecord| r@) =~= Seq::<_>::empty());
        std::mem::swap(&mut all, &mut self.nodes);
        assert(all@.map_values(|r: NodeRecord| r@) == before);
        all.push(n);
        assert(all@.map_values(|r: NodeRecord| r@) =~= before.push(n@));
        assert(nodes_authentic(before.push(n@))) by {
            assert forall|i: int| 0 <= i < before.len() + 1 implies signature_valid::<NodeRecord>(#[trigger] before.push(n@)[i]) by {
                if i < before.len() {
                    assert(before.push(n@)[i] == before[i]);
                }
            }
        }
        self.nodes = all;
        proof {
            use_type_invariant(&*self);
        }
    }

    /// Appends a record whose signature verifies.
    pub(crate) fn push_jobs(&mut self, j: JobRecord)
        requires
            signature_valid::<JobRecord>(j@),
        ensures
            all_authentic(final(self)@),
            final(self)@.jobs == old(self)@.jobs.push(j@),
            final(self)@.nodes == old(self)@.nodes,
            final(self)@.joins == old(self)@.joins,
            final(self)@.results == old(self)@.results,
    {
        proof {
            use_type_invariant(&*self);
        }
        let ghost before = self@.jobs;
        let mut all = Vec::new();
        assert(all@.map_values(|r: JobRecord| r@) =~= Seq::<_>::empty());
        std::mem::swap(&mut all, &mut self.jobs);
        assert(all@.map_values(|r: JobRecord| r@) == before);
        all.push(j);
        assert(all@.map_values(|r: JobRecord| r@) =~= before.push(j@));
        assert(jobs_authentic(before.push(j@))) by {
            assert forall|i: int| 0 <= i < before.len() + 1 implies signature_valid::<JobRecord>(#[trigger] before.push(j@)[i]) by {
                if i < before.len() {
                    assert(before.push(j@)[i] == before[i]);
                }
            }
        }
        self.jobs = all;
        proof {
            use_type_invariant(&*self);
        }
    }

    /// Appends a record whose signature verifies.
    pub(crate) fn push_joins(&mut self, j: JoinRecord)
        requires
            signature_valid::<JoinRecord>(j@),
        ensures
            all_authentic(final(self)@),
            final(self)@.joins == old(self)@.joins.push(j@),
            final(self)@.nodes == old(self)@.nodes,
            final(self)@.jobs == old(self)@.jobs,
            final(self)@.results == old(self)@.results,
    {
        proof {
            use_type_invariant(&*self);
        }
        let ghost before = self@.joins;
        let mut all = Vec::new();
        assert(all@.map_values(|r: JoinRecord| r@) =~= Seq::<_>::empty());
        std::mem::swap(&mut all, &mut self.joins);
        assert(all@.map_values(|r: JoinRecord| r@) == before);
        all.push(j);
        assert(all@.map_values(|r: JoinRecord| r@) =~= before.push(j@));
        assert(joins_authentic(before.push(j@))) by {
            assert forall|i: int| 0 <= i < before.len() + 1 implies signature_valid::<JoinRecord>(#[trigger] before.push(j@)[i]) by {
                if i < before.len() {
                    assert(before.push(j@)[i] == before[i]);
                }
            }
        }
        self.joins = all;
        proof {
            use_type_invariant(&*self);
        }
    }

    /// Appends a record whose signature verifies.
    pub(crate) fn push_results(&mut self, x: ResultRecord)
        requires
            signature_valid::<ResultRecord>(x@),
        ensures
            all_authentic(final(self)@),
            final(self)@.results == old(self)@.results.push(x@),
            final(self)@.nodes == old(self)@.nodes,
            final(self)@.jobs == old(self)@.jobs,
            final(self)@.joins == old(self)@.joins,
    {
        proof {
            use_type_invariant(&*self);
        }
        let ghost before = self@.results;
        let mut all = Vec::new();
        assert(all@.map_values(|r: ResultRecord| r@) =~= Seq::<_>::empty());
        std::mem::swap(&mut all, &mut self.results);
        assert(all@.map_values(|r: ResultRecord| r@) == before);
        all.push(x);
        assert(all@.map_values(|r: ResultRecord| r@) =~= before.push(x@));
        assert(results_authentic(before.push(x@))) by {
            assert forall|i: int| 0 <= i < before.len() + 1 implies signature_valid::<ResultRecord>(#[trigger] before.push(x@)[i]) by {
                if i < before.len() {
                    assert(before.push(x@)[i] == before[i]);
                }
            }
        }
        self.results = all;
        proof {
            use_type_invariant(&*self);
        }
    }

    fn add_loaded_nodes(&mut self, n: NodeRecord) -> (r: Result<(), String>)
        ensures
            r is Ok <==> signature_valid::<NodeRecord>(n@),
            r matches Err(e) ==> signature_error::<NodeRecord>(n@, e@),
            all_authentic(final(self)@),
            final(self)@.nodes == (if r is Ok { old(self)@.nodes.push(n@) } else { old(self)@.nodes }),
            final(self)@.jobs == old(self)@.jobs,
            final(self)@.joins == old(self)@.joins,
            final(self)@.results == old(self)@.results,
    {
        proof {
            use_type_invariant(&*self);
        }
        verify_signature(&n)?;
        self.push_nodes(n);
        Ok(())
    }

    fn add_loaded_jobs(&mut self, j: JobRecord) -> (r: Result<(), String>)
        ensures
            r is Ok <==> signature_valid::<JobRecord>(j@),
            r matches Err(e) ==> signature_error::<JobRecord>(j@, e@),
            all_authentic(final(self)@),
            final(self)@.jobs == (if r is Ok { old(self)@.jobs.push(j@) } else { old(self)@.jobs }),
            final(self)@.nodes == old(self)@.nodes,
            final(self)@.joins == old(self)@.joins,
            final(self)@.results == old(self)@.results,
    {
        proof {
            use_type_invariant(&*self);
        }
        verify_signature(&j)?;
        self.push_jobs(j);
        Ok(())
    }

    fn add_loaded_joins(&mut self, j: JoinRecord) -> (r: Result<(), String>)
        ensures
            r is Ok <==> signature_valid::<JoinRecord>(j@),
            r matches Err(e) ==> signature_error::<JoinRecord>(j@, e@),
            all_authentic(final(self)@),
            final(self)@.joins == (if r is Ok { old(self)@.joins.push(j@) } else { old(self)@.joins }),
            final(self)@.nodes == old(self)@.nodes,
            final(self)@.jobs == old(self)@.jobs,
            final(self)@.results == old(self)@.results,
    {
        proof {
            use_type_invariant(&*self);
        }
        verify_signature(&j)?;
        self.push_joins(j);
        Ok(())
    }

    fn add_loaded_results(&mut self, x: ResultRecord) -> (r: Result<(), String>)
        ensures
            r is Ok <==> signature_valid::<ResultRecord>(x@),
            r matches Err(e) ==> signature_error::<ResultRecord>(x@, e@),
            all_authentic(final(self)@),
            final(self)@.results == (if r is Ok { old(self)@.results.push(x@) } else { old(self)@.results }),
            final(self)@.nodes == old(self)@.nodes,
            final(self)@.jobs == old(self)@.jobs,
            final(self)@.joins == old(self)@.joins,
    {
        proof {
            use_type_invariant(&*self);
        }
        verify_signature(&x)?;
        self.push_results(x);
        Ok(())
    }
}

/// The most recently admitted node record with id `id`, if any.
pub fn latest_node<'a>(s: &'a Store, id: &str) -> (r: Option<&'a NodeRecord>)
    ensures
        match r {
            None => latest_node_of(s@.nodes, id@) is None,
            Some(n) => latest_node_of(s@.nodes, id@) == Some(n@),
        },
{
    let mut i = s.nodes.len();
    assert(s@.nodes.subrange(0, i as int) =~= s@.nodes);
    while i > 0
        invariant
            i <= s.nodes@.len(),
            latest_node_of(s@.nodes, id@) == latest_node_of(s@.nodes.subrange(0, i as int), id@),
        decreases i,
    {
        let ghost pre = s@.nodes.subrange(0, i as int);
        assert(pre.drop_last() =~= s@.nodes.subrange(0, i - 1));
        i = i - 1;
        if text_eq(s.nodes[i].node_id.as_str(), id) {
            return Some(&s.nodes[i]);
        }
    }
    None
}

/// The most recently admitted job record with id `id`, if any.
pub fn job<'a>(s: &'a Store, id: &str) -> (r: Option<&'a JobRecord>)
    ensures
        match r {
            None => latest_job_of(s@.jobs, id@) is None,
            Some(j) => latest_job_of(s@.jobs, id@) == Some(j@),
        },
{
    let mut i = s.jobs.len();
    assert(s@.jobs.subrange(0, i as int) =~= s@.jobs);
    while i > 0
        invariant
            i <= s.jobs@.len(),
            latest_job_of(s@.jobs, id@) == latest_job_of(s@.jobs.subrange(0, i as int), id@),
        decreases i,
    {
        let ghost pre = s@.jobs.subrange(0, i as int);
        assert(pre.drop_last() =~= s@.jobs.subrange(0, i - 1));
        i = i - 1;
        if text_eq(s.jobs[i].job_id.as_str(), id) {
            return Some(&s.jobs[i]);
        }
    }
    None
}

} // verus!
