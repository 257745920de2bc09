use ed25519_dalek::{Signer, SigningKey, Verifier};
use stoffel_lobby::domain;
use stoffel_lobby::{
    node_id_for, sign_record, signing_preimage, verify_signature, AttestationBlob, JobPolicy, JobRecord,
    JobState, JoinRecord, NodeRecord, ResultRecord, Signed,
};

fn key() -> [u8; 32] {
    // Fixed seed: these tests are about the signing scheme, not randomness.
    [7u8; 32]
}

fn public(seed: &[u8; 32]) -> [u8; 32] {
    SigningKey::from_bytes(seed).verifying_key().to_bytes()
}

fn join(job: &str) -> JoinRecord {
    let pk = public(&key());
    JoinRecord {
        job_id: job.to_string(),
        node_id: node_id_for(&pk),
        pubkey: hex::encode(pk),
        party_id: 2,
        joined_at: 1786836064,
        signature: String::new(),
    }
}

#[test]
fn a_signed_record_verifies() {
    let mut r = join("abc123");
    sign_record(&mut r, &key()).unwrap();
    assert!(!r.signature.is_empty());
    verify_signature(&r).unwrap();
}

#[test]
fn mutating_any_field_breaks_the_signature() {
    let mut r = join("abc123");
    sign_record(&mut r, &key()).unwrap();
    for mutate in [
        (|r: &mut JoinRecord| r.party_id = 3) as fn(&mut JoinRecord),
        |r: &mut JoinRecord| r.job_id = "deadbeef".to_string(),
        |r: &mut JoinRecord| r.joined_at += 1,
    ] {
        let mut bad = r.clone();
        mutate(&mut bad);
        assert!(verify_signature(&bad).is_err(), "mutation was not caught");
    }
}

#[test]
fn a_signature_from_another_key_is_refused() {
    let mut r = join("abc123");
    sign_record(&mut r, &[9u8; 32]).unwrap();
    assert!(verify_signature(&r).is_err());
}

#[test]
fn domains_are_distinct_so_records_cannot_be_replayed_across_types() {
    let domains = [domain::NODE, domain::JOB, domain::JOIN, domain::RESULT];
    for (i, a) in domains.iter().enumerate() {
        for b in &domains[i + 1..] {
            assert_ne!(a, b, "domain separation prefixes must be unique");
        }
    }
    let r = join("abc123");
    let pre = signing_preimage(&r).unwrap();
    assert!(pre.starts_with(domain::JOIN.as_bytes()));
}

#[test]
fn preimage_ignores_the_stored_signature() {
    let mut a = join("abc123");
    let before = signing_preimage(&a).unwrap();
    a.signature = "ff".repeat(64);
    let after = signing_preimage(&a).unwrap();
    assert_eq!(before, after, "preimage must not depend on the signature");
}

#[test]
fn node_id_is_the_hash_of_the_key() {
    let pk = public(&key());
    assert_eq!(node_id_for(&pk), hex::encode(blake3::hash(&pk).as_bytes()));
}

// ---------------------------------------------------------------------------

fn node(seed: &[u8; 32]) -> NodeRecord {
    let pk = public(seed);
    NodeRecord {
        node_id: node_id_for(&pk),
        pubkey: hex::encode(pk),
        endpoint: "node:8080".into(),
        max_parties: 2,
        supported_thresholds: vec![0],
        operator_label: "test".into(),
        attestation: AttestationBlob {
            quote_hex: "quote".into(),
            collateral_json: "{}".into(),
            event_log: "measurement".into(),
        },
        announced_at: 1786836064,
        signature: String::new(),
    }
}

fn job_record(proposer: &str) -> JobRecord {
    JobRecord {
        job_id: "job".into(),
        program_id: "program".into(),
        program_url: None,
        entry: "main".into(),
        n_parties: 2,
        threshold: 0,
        policy: JobPolicy::default(),
        not_before: None,
        state: JobState::Open,
        proposer: proposer.into(),
        created_at: 1786836064,
        signature: String::new(),
    }
}

#[test]
fn join_preimage_is_the_domain_and_the_canonical_json() {
    let r = JoinRecord {
        job_id: "abc123".into(),
        node_id: "n\"1".into(),
        pubkey: "k".into(),
        party_id: 2,
        joined_at: 1786836064,
        signature: "ignored".into(),
    };
    let pre = signing_preimage(&r).unwrap();
    let expected = "stoffel-lobby/join/v1:{\"job_id\":\"abc123\",\"node_id\":\"n\\\"1\",\"pubkey\":\"k\",\"party_id\":2,\"joined_at\":1786836064,\"signature\":\"\"}";
    assert_eq!(String::from_utf8(pre).unwrap(), expected);
}

#[test]
fn job_preimage_writes_every_field_in_order() {
    let mut j = job_record("abcd");
    j.program_url = Some("https://x/y".into());
    j.not_before = Some(5);
    j.policy.allowed_measurements = vec!["m1".into(), "m2".into()];
    j.state = JobState::Forming;
    let pre = String::from_utf8(signing_preimage(&j).unwrap()).unwrap();
    let expected = "stoffel-lobby/job/v1:{\"job_id\":\"job\",\"program_id\":\"program\",\"program_url\":\"https://x/y\",\"entry\":\"main\",\"n_parties\":2,\"threshold\":0,\"policy\":{\"allowed_measurements\":[\"m1\",\"m2\"],\"allowed_compose_hashes\":[]},\"not_before\":5,\"state\":\"forming\",\"proposer\":\"abcd\",\"created_at\":1786836064,\"signature\":\"\"}";
    assert_eq!(pre, expected);
}

#[test]
fn node_preimage_writes_nested_attestation_and_thresholds() {
    let mut n = node(&key());
    n.node_id = "id".into();
    n.pubkey = "pk".into();
    n.supported_thresholds = vec![0, 1, 12];
    n.operator_label = "tab\there\u{1}".into();
    let pre = String::from_utf8(signing_preimage(&n).unwrap()).unwrap();
    let expected = "stoffel-lobby/node/v1:{\"node_id\":\"id\",\"pubkey\":\"pk\",\"endpoint\":\"node:8080\",\"max_parties\":2,\"supported_thresholds\":[0,1,12],\"operator_label\":\"tab\\there\\u0001\",\"attestation\":{\"quote_hex\":\"quote\",\"collateral_json\":\"{}\",\"event_log\":\"measurement\"},\"announced_at\":1786836064,\"signature\":\"\"}";
    assert_eq!(pre, expected);
}

#[test]
fn result_preimage_has_its_own_domain() {
    let r = ResultRecord {
        job_id: "j".into(),
        node_id: "n".into(),
        pubkey: "p".into(),
        party_id: 0,
        value: "-4645747589851520984".into(),
        program_id: "prog".into(),
        completed_at: 0,
        signature: String::new(),
    };
    let pre = String::from_utf8(signing_preimage(&r).unwrap()).unwrap();
    assert_eq!(
        pre,
        "stoffel-lobby/result/v1:{\"job_id\":\"j\",\"node_id\":\"n\",\"pubkey\":\"p\",\"party_id\":0,\"value\":\"-4645747589851520984\",\"program_id\":\"prog\",\"completed_at\":0,\"signature\":\"\"}"
    );
}

#[test]
fn the_signature_is_lowercase_hex_of_an_ed25519_signature_over_the_preimage() {
    let mut r = join("abc123");
    let pre = signing_preimage(&r).unwrap();
    sign_record(&mut r, &key()).unwrap();
    let expected = SigningKey::from_bytes(&key()).sign(&pre);
    assert_eq!(r.signature, hex::encode(expected.to_bytes()));
    assert_eq!(r.signature.len(), 128);
    let vk = SigningKey::from_bytes(&key()).verifying_key();
    assert!(vk.verify(&pre, &expected).is_ok());
}

#[test]
fn every_signed_kind_round_trips() {
    let seed = [4u8; 32];
    let mut n = node(&seed);
    sign_record(&mut n, &seed).unwrap();
    verify_signature(&n).unwrap();
    let mut j = job_record(&n.pubkey);
    sign_record(&mut j, &seed).unwrap();
    verify_signature(&j).unwrap();
    let mut r = ResultRecord {
        job_id: "job".into(),
        node_id: n.node_id.clone(),
        pubkey: n.pubkey.clone(),
        party_id: 0,
        value: "7".into(),
        program_id: "program".into(),
        completed_at: 1,
        signature: String::new(),
    };
    sign_record(&mut r, &seed).unwrap();
    verify_signature(&r).unwrap();
}

#[test]
fn signer_key_that_is_not_hex_is_reported() {
    let mut r = join("abc123");
    r.pubkey = "zz".into();
    let e = verify_signature(&r).unwrap_err();
    assert!(e.starts_with("signer key is not hex: "), "{e}");
}

#[test]
fn signer_key_of_the_wrong_length_is_reported() {
    let mut r = join("abc123");
    r.pubkey = "abcd".into();
    assert_eq!(verify_signature(&r).unwrap_err(), "signer key is not 32 bytes");
}

#[test]
fn signature_that_is_not_hex_is_reported() {
    let mut r = join("abc123");
    r.signature = "xyz".into();
    let e = verify_signature(&r).unwrap_err();
    assert!(e.starts_with("signature is not hex: "), "{e}");
}

#[test]
fn signature_of_the_wrong_length_is_reported() {
    let mut r = join("abc123");
    r.signature = "ab".repeat(63);
    assert_eq!(verify_signature(&r).unwrap_err(), "signature is not 64 bytes");
}

#[test]
fn a_key_that_is_no_curve_point_is_reported() {
    let mut r = join("abc123");
    // y = 2 does not decompress to a point on the curve
    let mut bad = [0u8; 32];
    bad[0] = 2;
    r.pubkey = hex::encode(bad);
    r.signature = "00".repeat(64);
    let e = verify_signature(&r).unwrap_err();
    assert!(e.starts_with("bad Ed25519 key: "), "{e}");
}

#[test]
fn a_wrong_signature_does_not_verify() {
    let mut r = join("abc123");
    sign_record(&mut r, &key()).unwrap();
    r.joined_at += 1;
    let e = verify_signature(&r).unwrap_err();
    assert!(e.starts_with("signature does not verify: "), "{e}");
}

#[test]
fn uppercase_hex_in_the_signature_also_verifies() {
    let mut r = join("abc123");
    sign_record(&mut r, &key()).unwrap();
    r.signature = r.signature.to_uppercase();
    verify_signature(&r).unwrap();
}

#[test]
fn public_key_is_the_verifying_key_of_the_seed() {
    for seed in [[0u8; 32], [7u8; 32], [255u8; 32]] {
        assert_eq!(stoffel_lobby::public_key(&seed), public(&seed));
    }
}

#[test]
fn a_record_naming_the_seeds_public_key_verifies_once_signed() {
    let seed = [42u8; 32];
    let pk = stoffel_lobby::public_key(&seed);
    let mut r = join("xyz");
    r.node_id = node_id_for(&pk);
    r.pubkey = hex::encode(pk);
    sign_record(&mut r, &seed).unwrap();
    assert_eq!(r.signature.len(), 128);
    assert_eq!(r.node_id.len(), 64);
    verify_signature(&r).unwrap();
}

#[test]
fn node_ids_differ_per_key() {
    assert_ne!(node_id_for(&public(&[1; 32])), node_id_for(&public(&[2; 32])));
    assert_eq!(node_id_for(&[0u8; 32]).len(), 64);
}

#[test]
fn set_signature_and_signer_follow_the_record_type() {
    let mut j = job_record("proposer-key");
    assert_eq!(j.signer(), "proposer-key");
    j.set_signature("ab".into());
    assert_eq!(j.signature(), "ab");
    assert_eq!(<JobRecord as Signed>::domain(), domain::JOB);
    assert_eq!(JobState::Finished.name(), "finished");
}

#[test]
fn strings_are_escaped_as_the_json_spec_states() {
    let r = JoinRecord {
        job_id: "\u{7f}/\u{1f}\\\"\u{8}\u{c}\n\r\té".into(),
        node_id: "n".into(),
        pubkey: "k".into(),
        party_id: 0,
        joined_at: 0,
        signature: String::new(),
    };
    let pre = String::from_utf8(signing_preimage(&r).unwrap()).unwrap();
    let expected = "stoffel-lobby/join/v1:{\"job_id\":\"\u{7f}/\\u001f\\\\\\\"\\b\\f\\n\\r\\té\",\"node_id\":\"n\",\"pubkey\":\"k\",\"party_id\":0,\"joined_at\":0,\"signature\":\"\"}";
    assert_eq!(pre, expected);
}

#[test]
fn records_that_differ_outside_the_signature_have_different_preimages() {
    // A job id that imitates the next field cannot make two records collide.
    let mut a = join("a\",\"node_id\":\"b");
    a.node_id = "c".into();
    let mut b = join("a");
    b.node_id = "b\",\"node_id\":\"c".into();
    assert_ne!(signing_preimage(&a).unwrap(), signing_preimage(&b).unwrap());
    let mut c = a.clone();
    c.signature = "ff".into();
    assert_eq!(signing_preimage(&a).unwrap(), signing_preimage(&c).unwrap());
}
