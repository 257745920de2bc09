//! The record types of the lobby's wire schema, their mathematical models, and
//! their canonical JSON (the bytes `serde_json` writes for them, field by field
//! in declaration order).
//!
//! The schema is frozen: other components sign and verify these exact bytes.
use vstd::prelude::*;
use vstd::string::StringSliceAdditionalSpecFns;
use crate::json::{
    concat, decimal, extend, json_opt_string, json_opt_u64, json_string, json_strings, json_usizes, push_bytes,
    push_json_str, push_json_strings, push_text,
};

verus! {

/// Current bundle schema version.
pub const BUNDLE_VERSION: u32 = 1;

/// Attestation evidence for one node, self-contained so a verifier needs no
/// network: the quote, the DCAP collateral that validates it against the Intel
/// root, and the RTMR event log that replays onto the quote's own registers.
#[derive(Debug, Clone, PartialEq, Eq)]
pub struct AttestationBlob {
    /// Hex-encoded raw TDX quote.
    pub quote_hex: String,
    /// DCAP collateral, serialized as the JSON `dcap-qvl` accepts.
    pub collateral_json: String,
    /// The dstack RTMR event log, verbatim.
    pub event_log: String,
}

/// A node advertising itself. Signed by its long-term key.
#[derive(Debug, Clone, PartialEq, Eq)]
pub struct NodeRecord {
    /// `blake3(long_term_pubkey)`, hex. Stable across restarts.
    pub node_id: String,
    /// The long-term Ed25519 public key, hex. The quote binds its hash.
    pub pubkey: String,
    /// Where peers reach this node, `host:port`.
    pub endpoint: String,
    /// Largest committee size this node will serve.
    pub max_parties: usize,
    /// Byzantine thresholds it supports.
    pub supported_thresholds: Vec<usize>,
    /// Operator-chosen label. Untrusted, display only.
    pub operator_label: String,
    /// Evidence that this node is what it says it is.
    pub attestation: AttestationBlob,
    /// Unix seconds. Announce/heartbeat time, per the node's own clock.
    pub announced_at: u64,
    pub signature: String,
}

/// Which nodes a job will accept. Empty means "unconstrained".
#[derive(Debug, Clone, Default, PartialEq, Eq)]
pub struct JobPolicy {
    /// Accepted boot-register measurements, hex `blake3(mr_td||rtmr0..2)`.
    pub allowed_measurements: Vec<String>,
    /// Accepted `compose-hash` values, read out of the anchored event log.
    pub allowed_compose_hashes: Vec<String>,
}

/// Lifecycle of a job. Advances forward only.
#[derive(Debug, Clone, Copy, PartialEq, Eq, Structural)]
pub enum JobState {
    /// Accepting joins.
    Open,
    /// Enough joins; committee fixed.
    Forming,
    /// Committee is executing.
    Running,
    /// Every party published a result.
    Finished,
    /// Abandoned, timed out, or the results disagreed.
    Failed,
}

/// A proposed computation. Signed by the proposer.
#[derive(Debug, Clone, PartialEq, Eq)]
pub struct JobRecord {
    /// `blake3(program_id || entry || n || t)`, hex.
    pub job_id: String,
    /// `blake3` of the program bytecode, hex.
    pub program_id: String,
    /// Where the bytecode can be fetched.
    pub program_url: Option<String>,
    /// Entry function.
    pub entry: String,
    /// Committee size. Must satisfy `n >= 3t + 1`.
    pub n_parties: usize,
    /// Byzantine threshold.
    pub threshold: usize,
    pub policy: JobPolicy,
    /// Unix seconds before which the job must not start.
    pub not_before: Option<u64>,
    pub state: JobState,
    /// Proposer's public key, hex.
    pub proposer: String,
    pub created_at: u64,
    pub signature: String,
}

/// A node committing to serve a job as a particular party. Signed by the node.
#[derive(Debug, Clone, PartialEq, Eq)]
pub struct JoinRecord {
    pub job_id: String,
    pub node_id: String,
    /// Node's long-term public key, hex. Must match the `NodeRecord`.
    pub pubkey: String,
    /// Party index within the committee.
    pub party_id: usize,
    pub joined_at: u64,
    pub signature: String,
}

/// What one party opened. Signed by the node.
#[derive(Debug, Clone, PartialEq, Eq)]
pub struct ResultRecord {
    pub job_id: String,
    pub node_id: String,
    pub pubkey: String,
    pub party_id: usize,
    /// The opened value, formatted exactly as the node prints it.
    pub value: String,
    /// The program the party actually ran. Checked against `JobRecord`.
    pub program_id: String,
    pub completed_at: u64,
    pub signature: String,
}

/// Everything needed to verify one job offline.
#[derive(Debug, Clone, PartialEq, Eq)]
pub struct EvidenceBundle {
    /// Schema version.
    pub version: u32,
    pub job: JobRecord,
    /// One per committee member, in no particular order.
    pub nodes: Vec<NodeRecord>,
    pub joins: Vec<JoinRecord>,
    pub results: Vec<ResultRecord>,
}

// ---------------------------------------------------------------------------
// Models

pub struct SpecAttestationBlob {
    pub quote_hex: Seq<char>,
    pub collateral_json: Seq<char>,
    pub event_log: Seq<char>,
}

pub struct SpecNodeRecord {
    pub node_id: Seq<char>,
    pub pubkey: Seq<char>,
    pub endpoint: Seq<char>,
    pub max_parties: usize,
    pub supported_thresholds: Seq<usize>,
    pub operator_label: Seq<char>,
    pub attestation: SpecAttestationBlob,
    pub announced_at: u64,
    pub signature: Seq<char>,
}

pub struct SpecJobPolicy {
    pub allowed_measurements: Seq<Seq<char>>,
    pub allowed_compose_hashes: Seq<Seq<char>>,
}

pub struct SpecJobRecord {
    pub job_id: Seq<char>,
    pub program_id: Seq<char>,
    pub program_url: Option<Seq<char>>,
    pub entry: Seq<char>,
    pub n_parties: usize,
    pub threshold: usize,
    pub policy: SpecJobPolicy,
    pub not_before: Option<u64>,
    pub state: JobState,
    pub proposer: Seq<char>,
    pub created_at: u64,
    pub signature: Seq<char>,
}

pub struct SpecJoinRecord {
    pub job_id: Seq<char>,
    pub node_id: Seq<char>,
    pub pubkey: Seq<char>,
    pub party_id: usize,
    pub joined_at: u64,
    pub signature: Seq<char>,
}

pub struct SpecResultRecord {
    pub job_id: Seq<char>,
    pub node_id: Seq<char>,
    pub pubkey: Seq<char>,
    pub party_id: usize,
    pub value: Seq<char>,
    pub program_id: Seq<char>,
    pub completed_at: u64,
    pub signature: Seq<char>,
}

pub struct SpecEvidenceBundle {
    pub version: u32,
    pub job: SpecJobRecord,
    pub nodes: Seq<SpecNodeRecord>,
    pub joins: Seq<SpecJoinRecord>,
    pub results: Seq<SpecResultRecord>,
}

/// The texts of a list of strings.
pub open spec fn texts(v: Seq<String>) -> Seq<Seq<char>> {
    v.map_values(|s: String| s@)
}

/// The text of an optional string.
pub open spec fn opt_text(o: Option<String>) -> Option<Seq<char>> {
    match o {
        None => None,
        Some(s) => Some(s@),
    }
}

impl View for AttestationBlob {
    type V = SpecAttestationBlob;

    open spec fn view(&self) -> SpecAttestationBlob {
        SpecAttestationBlob {
            quote_hex: self.quote_hex@,
            collateral_json: self.collateral_json@,
            event_log: self.event_log@,
        }
    }
}

impl View for NodeRecord {
    type V = SpecNodeRecord;

    open spec fn view(&self) -> SpecNodeRecord {
        SpecNodeRecord {
            node_id: self.node_id@,
            pubkey: self.pubkey@,
            endpoint: self.endpoint@,
            max_parties: self.max_parties,
            supported_thresholds: self.supported_thresholds@,
            operator_label: self.operator_label@,
            attestation: self.attestation@,
            announced_at: self.announced_at,
            signature: self.signature@,
        }
    }
}

impl View for JobPolicy {
    type V = SpecJobPolicy;

    open spec fn view(&self) -> SpecJobPolicy {
        SpecJobPolicy {
            allowed_measurements: texts(self.allowed_measurements@),
            allowed_compose_hashes: texts(self.allowed_compose_hashes@),
        }
    }
}

impl View for JobRecord {
    type V = SpecJobRecord;

    open spec fn view(&self) -> SpecJobRecord {
        SpecJobRecord {
            job_id: self.job_id@,
            program_id: self.program_id@,
            program_url: opt_text(self.program_url),
            entry: self.entry@,
            n_parties: self.n_parties,
            threshold: self.threshold,
            policy: self.policy@,
            not_before: self.not_before,
            state: self.state,
            proposer: self.proposer@,
            created_at: self.created_at,
            signature: self.signature@,
        }
    }
}

impl View for JoinRecord {
    type V = SpecJoinRecord;

    open spec fn view(&self) -> SpecJoinRecord {
        SpecJoinRecord {
            job_id: self.job_id@,
            node_id: self.node_id@,
            pubkey: self.pubkey@,
            party_id: self.party_id,
            joined_at: self.joined_at,
            signature: self.signature@,
        }
    }
}

impl View for ResultRecord {
    type V = SpecResultRecord;

    open spec fn view(&self) -> SpecResultRecord {
        SpecResultRecord {
            job_id: self.job_id@,
            node_id: self.node_id@,
            pubkey: self.pubkey@,
            party_id: self.party_id,
            value: self.value@,
            program_id: self.program_id@,
            completed_at: self.completed_at,
            signature: self.signature@,
        }
    }
}

impl View for EvidenceBundle {
    type V = SpecEvidenceBundle;

    open spec fn view(&self) -> SpecEvidenceBundle {
        SpecEvidenceBundle {
            version: self.version,
            job: self.job@,
            nodes: self.nodes@.map_values(|n: NodeRecord| n@),
            joins: self.joins@.map_values(|j: JoinRecord| j@),
            results: self.results@.map_values(|r: ResultRecord| r@),
        }
    }
}

// ---------------------------------------------------------------------------
// Canonical JSON

/// The name `serde` gives a job state: the variant in lower case.
pub open spec fn job_state_name(s: JobState) -> Seq<char> {
    match s {
        JobState::Open => "open"@,
        JobState::Forming => "forming"@,
        JobState::Running => "running"@,
        JobState::Finished => "finished"@,
        JobState::Failed => "failed"@,
    }
}

/// The name of every job state is the variant's name in lower case, the form
/// `serde` gives it under `rename_all = "lowercase"`: only the letters `a` to
/// `z`, and for each state its own word.
pub proof fn lemma_job_state_wire_names()
    ensures
        job_state_name(JobState::Open) == "open"@,
        job_state_name(JobState::Forming) == "forming"@,
        job_state_name(JobState::Running) == "running"@,
        job_state_name(JobState::Finished) == "finished"@,
        job_state_name(JobState::Failed) == "failed"@,
        forall|s: JobState, i: int|
            0 <= i < job_state_name(s).len() ==> 'a' <= #[trigger] job_state_name(s)[i] <= 'z',
        forall|s: JobState| job_state_name(s).len() > 0,
{
    reveal_strlit("open");
    reveal_strlit("forming");
    reveal_strlit("running");
    reveal_strlit("finished");
    reveal_strlit("failed");
    assert(job_state_name(JobState::Open) =~= seq!['o', 'p', 'e', 'n']);
    assert(job_state_name(JobState::Forming) =~= seq!['f', 'o', 'r', 'm', 'i', 'n', 'g']);
    assert(job_state_name(JobState::Running) =~= seq!['r', 'u', 'n', 'n', 'i', 'n', 'g']);
    assert(job_state_name(JobState::Finished) =~= seq!['f', 'i', 'n', 'i', 's', 'h', 'e', 'd']);
    assert(job_state_name(JobState::Failed) =~= seq!['f', 'a', 'i', 'l', 'e', 'd']);
}

/// The JSON of a job state: its name as a string.
pub open spec fn job_state_json(s: JobState) -> Seq<u8> {
    json_string(job_state_name(s))
}

pub open spec fn attestation_json(a: SpecAttestationBlob) -> Seq<u8> {
    concat(
        Seq::empty()
            .push("{\"quote_hex\":".spec_bytes())
            .push(json_string(a.quote_hex))
            .push(",\"collateral_json\":".spec_bytes())
            .push(json_string(a.collateral_json))
            .push(",\"event_log\":".spec_bytes())
            .push(json_string(a.event_log))
            .push("}".spec_bytes()),
    )
}

pub open spec fn node_json(v: SpecNodeRecord) -> Seq<u8> {
    concat(
        Seq::empty()
            .push("{\"node_id\":".spec_bytes())
            .push(json_string(v.node_id))
            .push(",\"pubkey\":".spec_bytes())
            .push(json_string(v.pubkey))
            .push(",\"endpoint\":".spec_bytes())
            .push(json_string(v.endpoint))
            .push(",\"max_parties\":".spec_bytes())
            .push(decimal(v.max_parties as nat))
            .push(",\"supported_thresholds\":".spec_bytes())
            .push(json_usizes(v.supported_thresholds))
            .push(",\"operator_label\":".spec_bytes())
            .push(json_string(v.operator_label))
            .push(",\"attestation\":".spec_bytes())
            .push(attestation_json(v.attestation))
            .push(",\"announced_at\":".spec_bytes())
            .push(decimal(v.announced_at as nat))
            .push(",\"signature\":".spec_bytes())
            .push(json_string(v.signature))
            .push("}".spec_bytes()),
    )
}

pub open spec fn policy_json(p: SpecJobPolicy) -> Seq<u8> {
    concat(
        Seq::empty()
            .push("{\"allowed_measurements\":".spec_bytes())
            .push(json_strings(p.allowed_measurements))
            .push(",\"allowed_compose_hashes\":".spec_bytes())
            .push(json_strings(p.allowed_compose_hashes))
            .push("}".spec_bytes()),
    )
}

pub open spec fn job_json(v: SpecJobRecord) -> Seq<u8> {
    concat(
        Seq::empty()
            .push("{\"job_id\":".spec_bytes())
            .push(json_string(v.job_id))
            .push(",\"program_id\":".spec_bytes())
            .push(json_string(v.program_id))
            .push(",\"program_url\":".spec_bytes())
            .push(json_opt_string(v.program_url))
            .push(",\"entry\":".spec_bytes())
            .push(json_string(v.entry))
            .push(",\"n_parties\":".spec_bytes())
            .push(decimal(v.n_parties as nat))
            .push(",\"threshold\":".spec_bytes())
            .push(decimal(v.threshold as nat))
            .push(",\"policy\":".spec_bytes())
            .push(policy_json(v.policy))
            .push(",\"not_before\":".spec_bytes())
            .push(json_opt_u64(v.not_before))
            .push(",\"state\":".spec_bytes())
            .push(job_state_json(v.state))
            .push(",\"proposer\":".spec_bytes())
            .push(json_string(v.proposer))
            .push(",\"created_at\":".spec_bytes())
            .push(decimal(v.created_at as nat))
            .push(",\"signature\":".spec_bytes())
            .push(json_string(v.signature))
            .push("}".spec_bytes()),
    )
}

pub open spec fn join_json(v: SpecJoinRecord) -> Seq<u8> {
    concat(
        Seq::empty()
            .push("{\"job_id\":".spec_bytes())
            .push(json_string(v.job_id))
            .push(",\"node_id\":".spec_bytes())
            .push(json_string(v.node_id))
            .push(",\"pubkey\":".spec_bytes())
            .push(json_string(v.pubkey))
            .push(",\"party_id\":".spec_bytes())
            .push(decimal(v.party_id as nat))
            .push(",\"joined_at\":".spec_bytes())
            .push(decimal(v.joined_at as nat))
            .push(",\"signature\":".spec_bytes())
            .push(json_string(v.signature))
            .push("}".spec_bytes()),
    )
}

pub open spec fn result_json(v: SpecResultRecord) -> Seq<u8> {
    concat(
        Seq::empty()
            .push("{\"job_id\":".spec_bytes())
            .push(json_string(v.job_id))
            .push(",\"node_id\":".spec_bytes())
            .push(json_string(v.node_id))
            .push(",\"pubkey\":".spec_bytes())
            .push(json_string(v.pubkey))
            .push(",\"party_id\":".spec_bytes())
            .push(decimal(v.party_id as nat))
            .push(",\"value\":".spec_bytes())
            .push(json_string(v.value))
            .push(",\"program_id\":".spec_bytes())
            .push(json_string(v.program_id))
            .push(",\"completed_at\":".spec_bytes())
            .push(decimal(v.completed_at as nat))
            .push(",\"signature\":".spec_bytes())
            .push(json_string(v.signature))
            .push("}".spec_bytes()),
    )
}

impl JobState {
    /// The state's name as `serde` writes it: the variant in lower case.
    pub fn name(&self) -> (name: &'static str)
        ensures
            name@ == job_state_name(*self),
    {
        match self {
            JobState::Open => "open",
            JobState::Forming => "forming",
            JobState::Running => "running",
            JobState::Finished => "finished",
            JobState::Failed => "failed",
        }
    }

    pub(crate) fn push_json(&self, out: &mut Vec<u8>)
        ensures
            final(out)@ == old(out)@ + job_state_json(*self),
    {
        push_json_str(out, self.name());
    }
}

impl AttestationBlob {
    /// A copy of this blob.
    pub fn duplicate(&self) -> (r: AttestationBlob)
        ensures
            r@ == self@,
    {
        AttestationBlob {
            quote_hex: self.quote_hex.clone(),
            collateral_json: self.collateral_json.clone(),
            event_log: self.event_log.clone(),
        }
    }

    pub(crate) fn push_json(&self, out: &mut Vec<u8>)
        ensures
            final(out)@ == old(out)@ + attestation_json(self@),
    {
        let mut buf: Vec<u8> = Vec::new();
        let ghost mut parts: Seq<Seq<u8>> = Seq::empty();
        assert(buf@ =~= concat(parts));
        push_text(&mut buf, "{\"quote_hex\":");
        proof { parts = extend(parts, "{\"quote_hex\":".spec_bytes()); }
        push_json_str(&mut buf, self.quote_hex.as_str());
        proof { parts = extend(parts, json_string(self.quote_hex@)); }
        push_text(&mut buf, ",\"collateral_json\":");
        proof { parts = extend(parts, ",\"collateral_json\":".spec_bytes()); }
        push_json_str(&mut buf, self.collateral_json.as_str());
        proof { parts = extend(parts, json_string(self.collateral_json@)); }
        push_text(&mut buf, ",\"event_log\":");
        proof { parts = extend(parts, ",\"event_log\":".spec_bytes()); }
        push_json_str(&mut buf, self.event_log.as_str());
        proof { parts = extend(parts, json_string(self.event_log@)); }
        push_text(&mut buf, "}");
        proof { parts = extend(parts, "}".spec_bytes()); }
        push_bytes(out, &buf);
    }
}

impl JobPolicy {
    /// A copy of this policy.
    pub fn duplicate(&self) -> (r: JobPolicy)
        ensures
            r@ == self@,
    {
        JobPolicy {
            allowed_measurements: copy_texts(&self.allowed_measurements),
            allowed_compose_hashes: copy_texts(&self.allowed_compose_hashes),
        }
    }

    pub(crate) fn push_json(&self, out: &mut Vec<u8>)
        ensures
            final(out)@ == old(out)@ + policy_json(self@),
    {
        let mut buf: Vec<u8> = Vec::new();
        let ghost mut parts: Seq<Seq<u8>> = Seq::empty();
        assert(buf@ =~= concat(parts));
        push_text(&mut buf, "{\"allowed_measurements\":");
        proof { parts = extend(parts, "{\"allowed_measurements\":".spec_bytes()); }
        push_json_strings(&mut buf, &self.allowed_measurements);
        proof { parts = extend(parts, json_strings(self.allowed_measurements@.map_values(|s: String| s@))); }
        push_text(&mut buf, ",\"allowed_compose_hashes\":");
        proof { parts = extend(parts, ",\"allowed_compose_hashes\":".spec_bytes()); }
        push_json_strings(&mut buf, &self.allowed_compose_hashes);
        proof { parts = extend(parts, json_strings(self.allowed_compose_hashes@.map_values(|s: String| s@))); }
        push_text(&mut buf, "}");
        proof { parts = extend(parts, "}".spec_bytes()); }
        push_bytes(out, &buf);
    }
}

/// A copy of a list of texts.
fn copy_texts(v: &Vec<String>) -> (r: Vec<String>)
    ensures
        texts(r@) == texts(v@),
{
    let mut r: Vec<String> = Vec::new();
    let mut i: usize = 0;
    while i < v.len()
        invariant
            i <= v@.len(),
            r@.len() == i,
            forall|k: int| 0 <= k < i ==> #[trigger] r@[k]@ == v@[k]@,
        decreases v@.len() - i,
    {
        r.push(v[i].clone());
        i = i + 1;
    }
    assert(texts(r@) =~= texts(v@));
    r
}

/// A copy of a list of integers.
fn copy_usizes(v: &Vec<usize>) -> (r: Vec<usize>)
    ensures
        r@ == v@,
{
    let mut r: Vec<usize> = Vec::new();
    let mut i: usize = 0;
    while i < v.len()
        invariant
            i <= v@.len(),
            r@ == v@.subrange(0, i as int),
        decreases v@.len() - i,
    {
        r.push(v[i]);
        i = i + 1;
        assert(r@ =~= v@.subrange(0, i as int));
    }
    assert(v@.subrange(0, v@.len() as int) =~= v@);
    r
}

fn copy_opt_text(o: &Option<String>) -> (r: Option<String>)
    ensures
        opt_text(r) == opt_text(*o),
{
    match o {
        None => None,
        Some(s) => Some(s.clone()),
    }
}

/// Two lists of texts are equal.
fn texts_eq(a: &Vec<String>, b: &Vec<String>) -> (r: bool)
    ensures
        r == (texts(a@) == texts(b@)),
{
    if a.len() != b.len() {
        assert(texts(a@).len() != texts(b@).len());
        return false;
    }
    let mut i: usize = 0;
    while i < a.len()
        invariant
            a@.len() == b@.len(),
            i <= a@.len(),
            forall|k: int| 0 <= k < i ==> #[trigger] a@[k]@ == b@[k]@,
        decreases a@.len() - i,
    {
        if a[i] != b[i] {
            assert(texts(a@)[i as int] != texts(b@)[i as int]);
            return false;
        }
        i = i + 1;
    }
    assert(texts(a@) =~= texts(b@));
    true
}

impl JobRecord {
    /// Whether two job records are the same record, field for field.
    pub fn same_as(&self, other: &JobRecord) -> (r: bool)
        ensures
            r == (self@ == other@),
    {
        let url_same = match (&self.program_url, &other.program_url) {
            (None, None) => true,
            (Some(a), Some(b)) => *a == *b,
            _ => false,
        };
        let r = self.job_id == other.job_id && self.program_id == other.program_id && url_same
            && self.entry == other.entry && self.n_parties == other.n_parties
            && self.threshold == other.threshold
            && texts_eq(&self.policy.allowed_measurements, &other.policy.allowed_measurements)
            && texts_eq(&self.policy.allowed_compose_hashes, &other.policy.allowed_compose_hashes)
            && self.not_before == other.not_before && self.state == other.state
            && self.proposer == other.proposer && self.created_at == other.created_at
            && self.signature == other.signature;
        proof {
            if self@ == other@ {
                assert(self@.program_url == other@.program_url);
                assert(self@.policy == other@.policy);
            }
        }
        r
    }
}

impl NodeRecord {
    /// A copy of this record.
    pub fn duplicate(&self) -> (r: NodeRecord)
        ensures
            r@ == self@,
    {
        NodeRecord {
            node_id: self.node_id.clone(),
            pubkey: self.pubkey.clone(),
            endpoint: self.endpoint.clone(),
            max_parties: self.max_parties,
            supported_thresholds: copy_usizes(&self.supported_thresholds),
            operator_label: self.operator_label.clone(),
            attestation: self.attestation.duplicate(),
            announced_at: self.announced_at,
            signature: self.signature.clone(),
        }
    }
}

impl JobRecord {
    /// A copy of this record.
    pub fn duplicate(&self) -> (r: JobRecord)
        ensures
            r@ == self@,
    {
        JobRecord {
            job_id: self.job_id.clone(),
            program_id: self.program_id.clone(),
            program_url: copy_opt_text(&self.program_url),
            entry: self.entry.clone(),
            n_parties: self.n_parties,
            threshold: self.threshold,
            policy: self.policy.duplicate(),
            not_before: self.not_before,
            state: self.state,
            proposer: self.proposer.clone(),
            created_at: self.created_at,
            signature: self.signature.clone(),
        }
    }
}

impl JoinRecord {
    /// A copy of this record.
    pub fn duplicate(&self) -> (r: JoinRecord)
        ensures
            r@ == self@,
    {
        JoinRecord {
            job_id: self.job_id.clone(),
            node_id: self.node_id.clone(),
            pubkey: self.pubkey.clone(),
            party_id: self.party_id,
            joined_at: self.joined_at,
            signature: self.signature.clone(),
        }
    }
}

impl ResultRecord {
    /// A copy of this record.
    pub fn duplicate(&self) -> (r: ResultRecord)
        ensures
            r@ == self@,
    {
        ResultRecord {
            job_id: self.job_id.clone(),
            node_id: self.node_id.clone(),
            pubkey: self.pubkey.clone(),
            party_id: self.party_id,
            value: self.value.clone(),
            program_id: self.program_id.clone(),
            completed_at: self.completed_at,
            signature: self.signature.clone(),
        }
    }
}

} // verus!
