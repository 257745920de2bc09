//! Signing preimages, signing, signature checks, and node identities.
//!
//! The preimage of a record is its domain prefix, a `:`, then its canonical
//! JSON with the signature field blanked. Blanking the signature is what makes
//! this well-defined: signing a structure that contains its own signature is
//! otherwise circular.
use vstd::prelude::*;
use vstd::utf8::encode_utf8;
use crate::crypto::{blake3_digest, blake3_hash, ed25519_public, ed25519_public_key, ed25519_sign, ed25519_signature, ed25519_verifies, ed25519_key_accepted, PublicKey};
use crate::hexcode::{hex_bytes, hex_decodable, hex_decode, hex_encode, hex_text};
use crate::json::push_bytes;
use crate::json::push_text;
use crate::signed::Signed;
use crate::domain;
use crate::records::{
    job_json, join_json, node_json, result_json, JobRecord, JoinRecord, NodeRecord, ResultRecord, SpecJobRecord,
    SpecJoinRecord, SpecNodeRecord, SpecResultRecord,
};
use crate::canonical::{
    lemma_job_json_unique, lemma_join_json_unique, lemma_node_json_unique, lemma_result_json_unique, lemma_strip,
};
use vstd::utf8::is_ascii_chars_encode_utf8;

verus! {

/// The bytes signed for a record: domain prefix, `:`, canonical JSON with an
/// empty signature.
pub open spec fn preimage<T: Signed>(v: T::V) -> Seq<u8> {
    encode_utf8(T::spec_domain()) + seq![58u8] + T::spec_json(T::spec_with_signature(v, Seq::empty()))
}

/// The UTF-8 bytes of the key a record names as its signer.
pub open spec fn signer_text<T: Signed>(v: T::V) -> Seq<u8> {
    encode_utf8(T::spec_signer(v))
}

/// The UTF-8 bytes of the signature a record stores.
pub open spec fn signature_text<T: Signed>(v: T::V) -> Seq<u8> {
    encode_utf8(T::spec_signature(v))
}

/// The signer field is hex for exactly 32 bytes.
pub open spec fn signer_well_formed<T: Signed>(v: T::V) -> bool {
    hex_decodable(signer_text::<T>(v)) && hex_bytes(signer_text::<T>(v)).len() == 32
}

/// The signature field is hex for exactly 64 bytes.
pub open spec fn signature_well_formed<T: Signed>(v: T::V) -> bool {
    hex_decodable(signature_text::<T>(v)) && hex_bytes(signature_text::<T>(v)).len() == 64
}

/// A record is authentic: its signer is a 32-byte hex key, its signature a
/// 64-byte hex signature, and Ed25519 accepts that signature of the record's
/// preimage under that key.
pub open spec fn signature_valid<T: Signed>(v: T::V) -> bool {
    &&& signer_well_formed::<T>(v)
    &&& signature_well_formed::<T>(v)
    &&& ed25519_verifies(
        hex_bytes(signer_text::<T>(v)),
        preimage::<T>(v),
        hex_bytes(signature_text::<T>(v)),
    )
}

/// The first check a record's signature fails, in the order they are made:
/// the message that reports it, followed (for checks that fail inside an
/// outside crate) by that crate's error text.
pub open spec fn signature_rejection<T: Signed>(v: T::V) -> Seq<char> {
    if !hex_decodable(signer_text::<T>(v)) {
        "signer key is not hex: "@
    } else if hex_bytes(signer_text::<T>(v)).len() != 32 {
        "signer key is not 32 bytes"@
    } else if !ed25519_key_accepted(hex_bytes(signer_text::<T>(v))) {
        "bad Ed25519 key: "@
    } else if !hex_decodable(signature_text::<T>(v)) {
        "signature is not hex: "@
    } else if hex_bytes(signature_text::<T>(v)).len() != 64 {
        "signature is not 64 bytes"@
    } else {
        "signature does not verify: "@
    }
}

/// The length checks report a fixed message, with nothing after it.
pub open spec fn signature_rejection_is_whole<T: Signed>(v: T::V) -> bool {
    &&& hex_decodable(signer_text::<T>(v))
    &&& (hex_bytes(signer_text::<T>(v)).len() != 32 || (ed25519_key_accepted(hex_bytes(signer_text::<T>(v)))
        && hex_decodable(signature_text::<T>(v)) && hex_bytes(signature_text::<T>(v)).len() != 64))
}

/// `e` is the message `verify_signature` gives for a record it refuses.
pub open spec fn signature_error<T: Signed>(v: T::V, e: Seq<char>) -> bool {
    &&& signature_rejection::<T>(v).is_prefix_of(e)
    &&& signature_rejection_is_whole::<T>(v) ==> e == signature_rejection::<T>(v)
}

/// The message `prefix` followed by `detail`.
fn message(prefix: &str, detail: &str) -> (m: String)
    ensures
        m@ == prefix@ + detail@,
{
    let mut m = prefix.to_owned();
    m.append(detail);
    m
}

/// Bytes that get signed for `record`: the domain prefix, a separator, then the
/// record's canonical JSON with an empty signature field. Never fails.
pub fn signing_preimage<T: Signed>(record: &T) -> (r: Result<Vec<u8>, String>)
    ensures
        r is Ok,
        r matches Ok(bytes) ==> bytes@ == preimage::<T>(record@),
{
    proof {
        reveal_strlit("");
    }
    let body = record.json_with_signature("");
    let mut out: Vec<u8> = Vec::new();
    push_text(&mut out, T::domain());
    out.push(58u8);
    push_bytes(&mut out, &body);
    assert(""@ =~= Seq::<char>::empty());
    assert(out@ =~= preimage::<T>(record@));
    Ok(out)
}

/// Verify a record's signature under the key the record names as its signer.
///
/// This does not establish that the signer is attested or allowed: a valid
/// signature by an unattested key is worthless, and `Ok` here is no admission.
pub fn verify_signature<T: Signed>(record: &T) -> (r: Result<(), String>)
    ensures
        r is Ok <==> signature_valid::<T>(record@),
        r matches Err(e) ==> signature_error::<T>(record@, e@),
{
    let key_bytes = match hex_decode(record.signer()) {
        Ok(bytes) => bytes,
        Err(e) => {
            return Err(message("signer key is not hex: ", e.as_str()));
        },
    };
    if key_bytes.len() != 32 {
        return Err("signer key is not 32 bytes".to_owned());
    }
    let key = match PublicKey::from_bytes(key_bytes.as_slice()) {
        Ok(key) => key,
        Err(e) => {
            return Err(message("bad Ed25519 key: ", e.as_str()));
        },
    };
    let sig_bytes = match hex_decode(record.signature()) {
        Ok(bytes) => bytes,
        Err(e) => {
            return Err(message("signature is not hex: ", e.as_str()));
        },
    };
    if sig_bytes.len() != 64 {
        return Err("signature is not 64 bytes".to_owned());
    }
    let message_bytes = match signing_preimage(record) {
        Ok(bytes) => bytes,
        Err(e) => {
            return Err(e);
        },
    };
    match key.verify(message_bytes.as_slice(), sig_bytes.as_slice()) {
        Ok(()) => Ok(()),
        Err(e) => Err(message("signature does not verify: ", e.as_str())),
    }
}

/// Sign a record in place with the Ed25519 secret key `seed`: the signature
/// field becomes the lowercase hex of the signature of the record's preimage.
/// Never fails. When the record names as its signer the public key of `seed`,
/// the signed record passes `verify_signature`.
pub fn sign_record<T: Signed>(record: &mut T, seed: &[u8; 32]) -> (r: Result<(), String>)
    ensures
        r is Ok,
        final(record)@ == T::spec_with_signature(
            old(record)@,
            hex_text(ed25519_signature(seed@, preimage::<T>(old(record)@))),
        ),
        T::spec_signature(final(record)@).len() == 128,
        signer_well_formed::<T>(old(record)@) && hex_bytes(signer_text::<T>(old(record)@)) == ed25519_public(seed@)
            ==> signature_valid::<T>(final(record)@),
{
    let message_bytes = match signing_preimage(record) {
        Ok(bytes) => bytes,
        Err(e) => {
            return Err(e);
        },
    };
    let sig = ed25519_sign(seed, message_bytes.as_slice());
    let text = hex_encode(sig.as_slice());
    let ghost before = record@;
    record.set_signature(text);
    proof {
        let after = T::spec_with_signature(before, hex_text(sig@));
        T::lemma_with_signature(before, hex_text(sig@), Seq::empty());
        crate::hexcode::lemma_hex_round_trip(sig@);
        assert(preimage::<T>(after) == preimage::<T>(before));
        assert(T::spec_signer(after) == T::spec_signer(before));
        assert(T::spec_signature(after) == hex_text(sig@));
    }
    Ok(())
}

/// The Ed25519 public key of the secret key `seed`, as its 32 bytes. A record
/// whose signer is the hex of this key verifies once `sign_record` has signed
/// it with `seed`.
pub fn public_key(seed: &[u8; 32]) -> (pk: [u8; 32])
    ensures
        pk@ == ed25519_public(seed@),
        pk@.len() == 32,
{
    ed25519_public_key(seed)
}

/// `node_id` for a public key: `blake3(pubkey)`, as 64 lowercase hex digits.
pub fn node_id_for(pubkey: &[u8; 32]) -> (id: String)
    ensures
        id@ == hex_text(blake3_digest(pubkey@)),
        id@.len() == 64,
{
    let digest = blake3_hash(vstd::array::array_as_slice(pubkey));
    hex_encode(digest.as_slice())
}

/// A record's preimage does not depend on the signature it stores.
pub proof fn lemma_preimage_ignores_signature<T: Signed>(v: T::V, sig: Seq<char>)
    ensures
        preimage::<T>(T::spec_with_signature(v, sig)) == preimage::<T>(v),
{
    T::lemma_with_signature(v, sig, Seq::empty());
}

/// Two byte strings that differ at a position inside both prefixes differ,
/// whatever follows them.
proof fn lemma_prefixes_differ(p: Seq<u8>, x: Seq<u8>, q: Seq<u8>, y: Seq<u8>, i: int)
    requires
        0 <= i < p.len(),
        i < q.len(),
        p[i] != q[i],
    ensures
        p + x != q + y,
{
    assert((p + x)[i] == p[i]);
    assert((q + y)[i] == q[i]);
}

/// The four domain prefixes are pairwise distinct.
pub proof fn lemma_domains_distinct()
    ensures
        domain::NODE@ != domain::JOB@,
        domain::NODE@ != domain::JOIN@,
        domain::NODE@ != domain::RESULT@,
        domain::JOB@ != domain::JOIN@,
        domain::JOB@ != domain::RESULT@,
        domain::JOIN@ != domain::RESULT@,
{
    reveal_strlit("stoffel-lobby/node/v1");
    reveal_strlit("stoffel-lobby/job/v1");
    reveal_strlit("stoffel-lobby/join/v1");
    reveal_strlit("stoffel-lobby/result/v1");
    assert(domain::NODE@[14] != domain::JOB@[14]);
    assert(domain::NODE@[14] != domain::JOIN@[14]);
    assert(domain::NODE@[14] != domain::RESULT@[14]);
    assert(domain::JOB@[16] != domain::JOIN@[16]);
    assert(domain::JOB@[14] != domain::RESULT@[14]);
    assert(domain::JOIN@[14] != domain::RESULT@[14]);
}

/// Records of different types never have the same preimage, whatever their
/// contents: a signature over one record cannot be replayed as a record of
/// another type.
pub proof fn lemma_preimages_of_different_types_differ(
    node: SpecNodeRecord,
    job: SpecJobRecord,
    join: SpecJoinRecord,
    result: SpecResultRecord,
)
    ensures
        preimage::<NodeRecord>(node) != preimage::<JobRecord>(job),
        preimage::<NodeRecord>(node) != preimage::<JoinRecord>(join),
        preimage::<NodeRecord>(node) != preimage::<ResultRecord>(result),
        preimage::<JobRecord>(job) != preimage::<JoinRecord>(join),
        preimage::<JobRecord>(job) != preimage::<ResultRecord>(result),
        preimage::<JoinRecord>(join) != preimage::<ResultRecord>(result),
{
    reveal_strlit("stoffel-lobby/node/v1");
    reveal_strlit("stoffel-lobby/job/v1");
    reveal_strlit("stoffel-lobby/join/v1");
    reveal_strlit("stoffel-lobby/result/v1");
    let n = domain::NODE@;
    let b = domain::JOB@;
    let j = domain::JOIN@;
    let r = domain::RESULT@;
    is_ascii_chars_encode_utf8(n);
    is_ascii_chars_encode_utf8(b);
    is_ascii_chars_encode_utf8(j);
    is_ascii_chars_encode_utf8(r);
    let en = encode_utf8(n);
    let eb = encode_utf8(b);
    let ej = encode_utf8(j);
    let er = encode_utf8(r);
    assert(en[14] == n[14] as u8 && eb[14] == b[14] as u8 && ej[14] == j[14] as u8 && er[14] == r[14] as u8);
    assert(eb[16] == b[16] as u8 && ej[16] == j[16] as u8);
    let sn = NodeRecord::spec_json(NodeRecord::spec_with_signature(node, Seq::empty()));
    let sb = JobRecord::spec_json(JobRecord::spec_with_signature(job, Seq::empty()));
    let sj = JoinRecord::spec_json(JoinRecord::spec_with_signature(join, Seq::empty()));
    let sr = ResultRecord::spec_json(ResultRecord::spec_with_signature(result, Seq::empty()));
    assert(preimage::<NodeRecord>(node) == en + (seq![58u8] + sn));
    assert(preimage::<JobRecord>(job) == eb + (seq![58u8] + sb));
    assert(preimage::<JoinRecord>(join) == ej + (seq![58u8] + sj));
    assert(preimage::<ResultRecord>(result) == er + (seq![58u8] + sr));
    lemma_prefixes_differ(en, seq![58u8] + sn, eb, seq![58u8] + sb, 14);
    lemma_prefixes_differ(en, seq![58u8] + sn, ej, seq![58u8] + sj, 14);
    lemma_prefixes_differ(en, seq![58u8] + sn, er, seq![58u8] + sr, 14);
    lemma_prefixes_differ(eb, seq![58u8] + sb, ej, seq![58u8] + sj, 16);
    lemma_prefixes_differ(eb, seq![58u8] + sb, er, seq![58u8] + sr, 14);
    lemma_prefixes_differ(ej, seq![58u8] + sj, er, seq![58u8] + sr, 14);
}

/// A record's preimage tells the record up to its signature: two records of
/// one type with the same preimage agree in every other field. Together with
/// `lemma_preimages_of_different_types_differ`, a signature over one record
/// signs no other record, of its own type or another.
pub proof fn lemma_preimage_determines_record(
    n1: SpecNodeRecord,
    n2: SpecNodeRecord,
    j1: SpecJobRecord,
    j2: SpecJobRecord,
    o1: SpecJoinRecord,
    o2: SpecJoinRecord,
    r1: SpecResultRecord,
    r2: SpecResultRecord,
)
    ensures
        preimage::<NodeRecord>(n1) == preimage::<NodeRecord>(n2) ==> NodeRecord::spec_with_signature(n1, Seq::empty())
            == NodeRecord::spec_with_signature(n2, Seq::empty()),
        preimage::<JobRecord>(j1) == preimage::<JobRecord>(j2) ==> JobRecord::spec_with_signature(j1, Seq::empty())
            == JobRecord::spec_with_signature(j2, Seq::empty()),
        preimage::<JoinRecord>(o1) == preimage::<JoinRecord>(o2) ==> JoinRecord::spec_with_signature(o1, Seq::empty())
            == JoinRecord::spec_with_signature(o2, Seq::empty()),
        preimage::<ResultRecord>(r1) == preimage::<ResultRecord>(r2) ==> ResultRecord::spec_with_signature(
            r1,
            Seq::empty(),
        ) == ResultRecord::spec_with_signature(r2, Seq::empty()),
{
    let e: Seq<u8> = Seq::empty();
    if preimage::<NodeRecord>(n1) == preimage::<NodeRecord>(n2) {
        let a = NodeRecord::spec_with_signature(n1, Seq::empty());
        let b = NodeRecord::spec_with_signature(n2, Seq::empty());
        lemma_strip(encode_utf8(domain::NODE@) + seq![58u8], node_json(a), node_json(b));
        assert(node_json(a) + e =~= node_json(a) && node_json(b) + e =~= node_json(b));
        lemma_node_json_unique(a, b, e, e);
    }
    if preimage::<JobRecord>(j1) == preimage::<JobRecord>(j2) {
        let a = JobRecord::spec_with_signature(j1, Seq::empty());
        let b = JobRecord::spec_with_signature(j2, Seq::empty());
        lemma_strip(encode_utf8(domain::JOB@) + seq![58u8], job_json(a), job_json(b));
        assert(job_json(a) + e =~= job_json(a) && job_json(b) + e =~= job_json(b));
        lemma_job_json_unique(a, b, e, e);
    }
    if preimage::<JoinRecord>(o1) == preimage::<JoinRecord>(o2) {
        let a = JoinRecord::spec_with_signature(o1, Seq::empty());
        let b = JoinRecord::spec_with_signature(o2, Seq::empty());
        lemma_strip(encode_utf8(domain::JOIN@) + seq![58u8], join_json(a), join_json(b));
        assert(join_json(a) + e =~= join_json(a) && join_json(b) + e =~= join_json(b));
        lemma_join_json_unique(a, b, e, e);
    }
    if preimage::<ResultRecord>(r1) == preimage::<ResultRecord>(r2) {
        let a = ResultRecord::spec_with_signature(r1, Seq::empty());
        let b = ResultRecord::spec_with_signature(r2, Seq::empty());
        lemma_strip(encode_utf8(domain::RESULT@) + seq![58u8], result_json(a), result_json(b));
        assert(result_json(a) + e =~= result_json(a) && result_json(b) + e =~= result_json(b));
        lemma_result_json_unique(a, b, e, e);
    }
}

} // verus!
