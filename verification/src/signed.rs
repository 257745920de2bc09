//! Records that carry their own signature.
use vstd::prelude::*;
use vstd::string::StringSliceAdditionalSpecFns;
use crate::domain;
use crate::json::{
    concat, decimal, extend, json_opt_string, json_opt_u64, json_string, json_usizes, push_json_opt_str, push_json_opt_u64,
    push_json_str, push_json_u64, push_json_usizes, push_text,
};
use crate::records::{
    attestation_json, job_json, job_state_json, join_json, node_json, opt_text, policy_json, result_json, JobRecord, JoinRecord, NodeRecord, ResultRecord,
    SpecJobRecord, SpecJoinRecord, SpecNodeRecord, SpecResultRecord,
};

verus! {

/// A record that carries its own signature.
pub trait Signed: View + Sized {
    /// The domain-separation prefix of this record type.
    spec fn spec_domain() -> Seq<char>;

    /// The signature a record stores.
    spec fn spec_signature(v: Self::V) -> Seq<char>;

    /// The key a record names as its signer.
    spec fn spec_signer(v: Self::V) -> Seq<char>;

    /// The record with its signature replaced.
    spec fn spec_with_signature(v: Self::V, sig: Seq<char>) -> Self::V;

    /// The record's canonical JSON.
    spec fn spec_json(v: Self::V) -> Seq<u8>;

    /// Replacing the signature sets it, leaves the signer, and forgets the
    /// signature that was there.
    proof fn lemma_with_signature(v: Self::V, s: Seq<char>, t: Seq<char>)
        ensures
            Self::spec_signature(Self::spec_with_signature(v, s)) == s,
            Self::spec_signer(Self::spec_with_signature(v, s)) == Self::spec_signer(v),
            Self::spec_with_signature(Self::spec_with_signature(v, s), t) == Self::spec_with_signature(v, t),
    ;

    /// Domain-separation prefix for this record type.
    fn domain() -> (d: &'static str)
        ensures
            d@ == Self::spec_domain(),
    ;

    /// The signature as stored.
    fn signature(&self) -> (s: &str)
        ensures
            s@ == Self::spec_signature(self@),
    ;

    /// Replace the signature (used to fill it in).
    fn set_signature(&mut self, sig: String)
        ensures
            final(self)@ == Self::spec_with_signature(old(self)@, sig@),
    ;

    /// The key expected to have signed this record.
    fn signer(&self) -> (s: &str)
        ensures
            s@ == Self::spec_signer(self@),
    ;

    /// The canonical JSON of this record with its signature replaced by `sig`,
    /// without changing the record.
    fn json_with_signature(&self, sig: &str) -> (json: Vec<u8>)
        ensures
            json@ == Self::spec_json(Self::spec_with_signature(self@, sig@)),
    ;
}

impl Signed for NodeRecord {
    open spec fn spec_domain() -> Seq<char> {
        domain::NODE@
    }

    open spec fn spec_signature(v: SpecNodeRecord) -> Seq<char> {
        v.signature
    }

    open spec fn spec_signer(v: SpecNodeRecord) -> Seq<char> {
        v.pubkey
    }

    open spec fn spec_with_signature(v: SpecNodeRecord, sig: Seq<char>) -> SpecNodeRecord {
        SpecNodeRecord { signature: sig, ..v }
    }

    open spec fn spec_json(v: SpecNodeRecord) -> Seq<u8> {
        node_json(v)
    }

    proof fn lemma_with_signature(v: SpecNodeRecord, s: Seq<char>, t: Seq<char>) {
    }

    fn domain() -> (d: &'static str) {
        domain::NODE
    }

    fn signature(&self) -> (s: &str) {
        self.signature.as_str()
    }

    fn set_signature(&mut self, sig: String) {
        self.signature = sig;
    }

    fn signer(&self) -> (s: &str) {
        self.pubkey.as_str()
    }

    fn json_with_signature(&self, sig: &str) -> (json: Vec<u8>) {
        let mut out: Vec<u8> = Vec::new();
        let ghost mut parts: Seq<Seq<u8>> = Seq::empty();
        assert(out@ =~= concat(parts));
        push_text(&mut out, "{\"node_id\":");
        proof { parts = extend(parts, "{\"node_id\":".spec_bytes()); }
        push_json_str(&mut out, self.node_id.as_str());
        proof { parts = extend(parts, json_string(self.node_id@)); }
        push_text(&mut out, ",\"pubkey\":");
        proof { parts = extend(parts, ",\"pubkey\":".spec_bytes()); }
        push_json_str(&mut out, self.pubkey.as_str());
        proof { parts = extend(parts, json_string(self.pubkey@)); }
        push_text(&mut out, ",\"endpoint\":");
        proof { parts = extend(parts, ",\"endpoint\":".spec_bytes()); }
        push_json_str(&mut out, self.endpoint.as_str());
        proof { parts = extend(parts, json_string(self.endpoint@)); }
        push_text(&mut out, ",\"max_parties\":");
        proof { parts = extend(parts, ",\"max_parties\":".spec_bytes()); }
        push_json_u64(&mut out, self.max_parties as u64);
        proof { parts = extend(parts, decimal(self.max_parties as nat)); }
        push_text(&mut out, ",\"supported_thresholds\":");
        proof { parts = extend(parts, ",\"supported_thresholds\":".spec_bytes()); }
        push_json_usizes(&mut out, &self.supported_thresholds);
        proof { parts = extend(parts, json_usizes(self.supported_thresholds@)); }
        push_text(&mut out, ",\"operator_label\":");
        proof { parts = extend(parts, ",\"operator_label\":".spec_bytes()); }
        push_json_str(&mut out, self.operator_label.as_str());
        proof { parts = extend(parts, json_string(self.operator_label@)); }
        push_text(&mut out, ",\"attestation\":");
        proof { parts = extend(parts, ",\"attestation\":".spec_bytes()); }
        self.attestation.push_json(&mut out);
        proof { parts = extend(parts, attestation_json(self.attestation@)); }
        push_text(&mut out, ",\"announced_at\":");
        proof { parts = extend(parts, ",\"announced_at\":".spec_bytes()); }
        push_json_u64(&mut out, self.announced_at);
        proof { parts = extend(parts, decimal(self.announced_at as nat)); }
        push_text(&mut out, ",\"signature\":");
        proof { parts = extend(parts, ",\"signature\":".spec_bytes()); }
        push_json_str(&mut out, sig);
        proof { parts = extend(parts, json_string(sig@)); }
        push_text(&mut out, "}");
        proof { parts = extend(parts, "}".spec_bytes()); }
        out
    }
}

impl Signed for JobRecord {
    open spec fn spec_domain() -> Seq<char> {
        domain::JOB@
    }

    open spec fn spec_signature(v: SpecJobRecord) -> Seq<char> {
        v.signature
    }

    open spec fn spec_signer(v: SpecJobRecord) -> Seq<char> {
        v.proposer
    }

    open spec fn spec_with_signature(v: SpecJobRecord, sig: Seq<char>) -> SpecJobRecord {
        SpecJobRecord { signature: sig, ..v }
    }

    open spec fn spec_json(v: SpecJobRecord) -> Seq<u8> {
        job_json(v)
    }

    proof fn lemma_with_signature(v: SpecJobRecord, s: Seq<char>, t: Seq<char>) {
    }

    fn domain() -> (d: &'static str) {
        domain::JOB
    }

    fn signature(&self) -> (s: &str) {
        self.signature.as_str()
    }

    fn set_signature(&mut self, sig: String) {
        self.signature = sig;
    }

    fn signer(&self) -> (s: &str) {
        self.proposer.as_str()
    }

    fn json_with_signature(&self, sig: &str) -> (json: Vec<u8>) {
        let mut out: Vec<u8> = Vec::new();
        let ghost mut parts: Seq<Seq<u8>> = Seq::empty();
        assert(out@ =~= concat(parts));
        push_text(&mut out, "{\"job_id\":");
        proof { parts = extend(parts, "{\"job_id\":".spec_bytes()); }
        push_json_str(&mut out, self.job_id.as_str());
        proof { parts = extend(parts, json_string(self.job_id@)); }
        push_text(&mut out, ",\"program_id\":");
        proof { parts = extend(parts, ",\"program_id\":".spec_bytes()); }
        push_json_str(&mut out, self.program_id.as_str());
        proof { parts = extend(parts, json_string(self.program_id@)); }
        push_text(&mut out, ",\"program_url\":");
        proof { parts = extend(parts, ",\"program_url\":".spec_bytes()); }
        push_json_opt_str(&mut out, &self.program_url);
        proof { parts = extend(parts, json_opt_string(opt_text(self.program_url))); }
        push_text(&mut out, ",\"entry\":");
        proof { parts = extend(parts, ",\"entry\":".spec_bytes()); }
        push_json_str(&mut out, self.entry.as_str());
        proof { parts = extend(parts, json_string(self.entry@)); }
        push_text(&mut out, ",\"n_parties\":");
        proof { parts = extend(parts, ",\"n_parties\":".spec_bytes()); }
        push_json_u64(&mut out, self.n_parties as u64);
        proof { parts = extend(parts, decimal(self.n_parties as nat)); }
        push_text(&mut out, ",\"threshold\":");
        proof { parts = extend(parts, ",\"threshold\":".spec_bytes()); }
        push_json_u64(&mut out, self.threshold as u64);
        proof { parts = extend(parts, decimal(self.threshold as nat)); }
        push_text(&mut out, ",\"policy\":");
        proof { parts = extend(parts, ",\"policy\":".spec_bytes()); }
        self.policy.push_json(&mut out);
        proof { parts = extend(parts, policy_json(self.policy@)); }
        push_text(&mut out, ",\"not_before\":");
        proof { parts = extend(parts, ",\"not_before\":".spec_bytes()); }
        push_json_opt_u64(&mut out, self.not_before);
        proof { parts = extend(parts, json_opt_u64(self.not_before)); }
        push_text(&mut out, ",\"state\":");
        proof { parts = extend(parts, ",\"state\":".spec_bytes()); }
        self.state.push_json(&mut out);
        proof { parts = extend(parts, job_state_json(self.state)); }
        push_text(&mut out, ",\"proposer\":");
        proof { parts = extend(parts, ",\"proposer\":".spec_bytes()); }
        push_json_str(&mut out, self.proposer.as_str());
        proof { parts = extend(parts, json_string(self.proposer@)); }
        push_text(&mut out, ",\"created_at\":");
        proof { parts = extend(parts, ",\"created_at\":".spec_bytes()); }
        push_json_u64(&mut out, self.created_at);
        proof { parts = extend(parts, decimal(self.created_at as nat)); }
        push_text(&mut out, ",\"signature\":");
        proof { parts = extend(parts, ",\"signature\":".spec_bytes()); }
        push_json_str(&mut out, sig);
        proof { parts = extend(parts, json_string(sig@)); }
        push_text(&mut out, "}");
        proof { parts = extend(parts, "}".spec_bytes()); }
        out
    }
}

impl Signed for JoinRecord {
    open spec fn spec_domain() -> Seq<char> {
        domain::JOIN@
    }

    open spec fn spec_signature(v: SpecJoinRecord) -> Seq<char> {
        v.signature
    }

    open spec fn spec_signer(v: SpecJoinRecord) -> Seq<char> {
        v.pubkey
    }

    open spec fn spec_with_signature(v: SpecJoinRecord, sig: Seq<char>) -> SpecJoinRecord {
        SpecJoinRecord { signature: sig, ..v }
    }

    open spec fn spec_json(v: SpecJoinRecord) -> Seq<u8> {
        join_json(v)
    }

    proof fn lemma_with_signature(v: SpecJoinRecord, s: Seq<char>, t: Seq<char>) {
    }

    fn domain() -> (d: &'static str) {
        domain::JOIN
    }

    fn signature(&self) -> (s: &str) {
        self.signature.as_str()
    }

    fn set_signature(&mut self, sig: String) {
        self.signature = sig;
    }

    fn signer(&self) -> (s: &str) {
        self.pubkey.as_str()
    }

    fn json_with_signature(&self, sig: &str) -> (json: Vec<u8>) {
        let mut out: Vec<u8> = Vec::new();
        let ghost mut parts: Seq<Seq<u8>> = Seq::empty();
        assert(out@ =~= concat(parts));
        push_text(&mut out, "{\"job_id\":");
        proof { parts = extend(parts, "{\"job_id\":".spec_bytes()); }
        push_json_str(&mut out, self.job_id.as_str());
        proof { parts = extend(parts, json_string(self.job_id@)); }
        push_text(&mut out, ",\"node_id\":");
        proof { parts = extend(parts, ",\"node_id\":".spec_bytes()); }
        push_json_str(&mut out, self.node_id.as_str());
        proof { parts = extend(parts, json_string(self.node_id@)); }
        push_text(&mut out, ",\"pubkey\":");
        proof { parts = extend(parts, ",\"pubkey\":".spec_bytes()); }
        push_json_str(&mut out, self.pubkey.as_str());
        proof { parts = extend(parts, json_string(self.pubkey@)); }
        push_text(&mut out, ",\"party_id\":");
        proof { parts = extend(parts, ",\"party_id\":".spec_bytes()); }
        push_json_u64(&mut out, self.party_id as u64);
        proof { parts = extend(parts, decimal(self.party_id as nat)); }
        push_text(&mut out, ",\"joined_at\":");
        proof { parts = extend(parts, ",\"joined_at\":".spec_bytes()); }
        push_json_u64(&mut out, self.joined_at);
        proof { parts = extend(parts, decimal(self.joined_at as nat)); }
        push_text(&mut out, ",\"signature\":");
        proof { parts = extend(parts, ",\"signature\":".spec_bytes()); }
        push_json_str(&mut out, sig);
        proof { parts = extend(parts, json_string(sig@)); }
        push_text(&mut out, "}");
        proof { parts = extend(parts, "}".spec_bytes()); }
        out
    }
}

impl Signed for ResultRecord {
    open spec fn spec_domain() -> Seq<char> {
        domain::RESULT@
    }

    open spec fn spec_signature(v: SpecResultRecord) -> Seq<char> {
        v.signature
    }

    open spec fn spec_signer(v: SpecResultRecord) -> Seq<char> {
        v.pubkey
    }

    open spec fn spec_with_signature(v: SpecResultRecord, sig: Seq<char>) -> SpecResultRecord {
        SpecResultRecord { signature: sig, ..v }
    }

    open spec fn spec_json(v: SpecResultRecord) -> Seq<u8> {
        result_json(v)
    }

    proof fn lemma_with_signature(v: SpecResultRecord, s: Seq<char>, t: Seq<char>) {
    }

    fn domain() -> (d: &'static str) {
        domain::RESULT
    }

    fn signature(&self) -> (s: &str) {
        self.signature.as_str()
    }

    fn set_signature(&mut self, sig: String) {
        self.signature = sig;
    }

    fn signer(&self) -> (s: &str) {
        self.pubkey.as_str()
    }

    fn json_with_signature(&self, sig: &str) -> (json: Vec<u8>) {
        let mut out: Vec<u8> = Vec::new();
        let ghost mut parts: Seq<Seq<u8>> = Seq::empty();
        assert(out@ =~= concat(parts));
        push_text(&mut out, "{\"job_id\":");
        proof { parts = extend(parts, "{\"job_id\":".spec_bytes()); }
        push_json_str(&mut out, self.job_id.as_str());
        proof { parts = extend(parts, json_string(self.job_id@)); }
        push_text(&mut out, ",\"node_id\":");
        proof { parts = extend(parts, ",\"node_id\":".spec_bytes()); }
        push_json_str(&mut out, self.node_id.as_str());
        proof { parts = extend(parts, json_string(self.node_id@)); }
        push_text(&mut out, ",\"pubkey\":");
        proof { parts = extend(parts, ",\"pubkey\":".spec_bytes()); }
        push_json_str(&mut out, self.pubkey.as_str());
        proof { parts = extend(parts, json_string(self.pubkey@)); }
        push_text(&mut out, ",\"party_id\":");
        proof { parts = extend(parts, ",\"party_id\":".spec_bytes()); }
        push_json_u64(&mut out, self.party_id as u64);
        proof { parts = extend(parts, decimal(self.party_id as nat)); }
        push_text(&mut out, ",\"value\":");
        proof { parts = extend(parts, ",\"value\":".spec_bytes()); }
        push_json_str(&mut out, self.value.as_str());
        proof { parts = extend(parts, json_string(self.value@)); }
        push_text(&mut out, ",\"program_id\":");
        proof { parts = extend(parts, ",\"program_id\":".spec_bytes()); }
        push_json_str(&mut out, self.program_id.as_str());
        proof { parts = extend(parts, json_string(self.program_id@)); }
        push_text(&mut out, ",\"completed_at\":");
        proof { parts = extend(parts, ",\"completed_at\":".spec_bytes()); }
        push_json_u64(&mut out, self.completed_at);
        proof { parts = extend(parts, decimal(self.completed_at as nat)); }
        push_text(&mut out, ",\"signature\":");
        proof { parts = extend(parts, ",\"signature\":".spec_bytes()); }
        push_json_str(&mut out, sig);
        proof { parts = extend(parts, json_string(sig@)); }
        push_text(&mut out, "}");
        proof { parts = extend(parts, "}".spec_bytes()); }
        out
    }
}

} // verus!
