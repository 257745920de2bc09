use serde_json::Value;
use stoffel_lobby::intake::{check_fields, RecordKind};
use stoffel_lobby::{
    bundle, job, latest_node, node_id_for, now, public_key, sign_record, AttestationBlob, BundleRefusal, JobPolicy, JobRecord,
    JobState, JoinRecord, NodeRecord, Record, ResultRecord, Store, BUNDLE_VERSION,
};

fn public(seed: &[u8; 32]) -> [u8; 32] {
    public_key(seed)
}

fn node(seed: &[u8; 32]) -> NodeRecord {
    let pk = public(seed);
    NodeRecord {
        node_id: node_id_for(&pk),
        pubkey: hex::encode(pk),
        endpoint: "node:8080".into(),
        max_parties: 2,
        supported_thresholds: vec![0],
        operator_label: "test".into(),
        attestation: AttestationBlob {
            quote_hex: "quote".into(),
            collateral_json: "{}".into(),
            event_log: "measurement".into(),
        },
        announced_at: now().unwrap(),
        signature: String::new(),
    }
}

fn signed_node(seed: &[u8; 32]) -> NodeRecord {
    let mut n = node(seed);
    sign_record(&mut n, seed).unwrap();
    n
}

fn job_record(proposer: &str) -> JobRecord {
    JobRecord {
        job_id: "job".into(),
        program_id: "program".into(),
        program_url: None,
        entry: "main".into(),
        n_parties: 2,
        threshold: 0,
        policy: JobPolicy::default(),
        not_before: None,
        state: JobState::Open,
        proposer: proposer.into(),
        created_at: now().unwrap(),
        signature: String::new(),
    }
}

fn join_record(n: &NodeRecord, party: usize) -> JoinRecord {
    JoinRecord {
        job_id: "job".into(),
        node_id: n.node_id.clone(),
        pubkey: n.pubkey.clone(),
        party_id: party,
        joined_at: now().unwrap(),
        signature: String::new(),
    }
}

fn result_record(n: &NodeRecord, party: usize, value: &str) -> ResultRecord {
    ResultRecord {
        job_id: "job".into(),
        node_id: n.node_id.clone(),
        pubkey: n.pubkey.clone(),
        party_id: party,
        value: value.into(),
        program_id: "program".into(),
        completed_at: now().unwrap(),
        signature: String::new(),
    }
}

// What the service answers to an offered record: 201 when admitted, else 400
// with the refusal.
fn post_node(s: &mut Store, r: &NodeRecord) -> (u16, String) {
    match s.check_node(r) {
        Ok(()) => {
            s.commit_node(r.clone()).unwrap();
            (201, String::new())
        }
        Err(e) => (400, e),
    }
}

fn post_job(s: &mut Store, r: &JobRecord) -> (u16, String) {
    match s.check_job(r) {
        Ok(()) => {
            s.commit_job(r.clone()).unwrap();
            (201, String::new())
        }
        Err(e) => (400, e),
    }
}

fn post_join(s: &mut Store, id: &str, r: &JoinRecord) -> (u16, String) {
    match s.check_join(id, r) {
        Ok(()) => {
            s.commit_join(id, r.clone()).unwrap();
            (201, String::new())
        }
        Err(e) => (400, e),
    }
}

fn post_result(s: &mut Store, id: &str, r: &ResultRecord) -> (u16, String) {
    match s.check_result(id, r) {
        Ok(()) => {
            s.commit_result(id, r.clone()).unwrap();
            (201, String::new())
        }
        Err(e) => (400, e),
    }
}

fn keys() -> [[u8; 32]; 2] {
    [[1; 32], [2; 32]]
}

// A store holding two nodes, an open job of two parties, and both joins.
fn joined_store() -> (Store, [NodeRecord; 2]) {
    let mut s = Store::new();
    let k = keys();
    let nodes = [signed_node(&k[0]), signed_node(&k[1])];
    for n in &nodes {
        assert_eq!(post_node(&mut s, n).0, 201);
    }
    let mut j = job_record(&nodes[0].pubkey);
    sign_record(&mut j, &k[0]).unwrap();
    assert_eq!(post_job(&mut s, &j).0, 201);
    for (i, n) in nodes.iter().enumerate() {
        let mut join = join_record(n, i);
        sign_record(&mut join, &k[i]).unwrap();
        assert_eq!(post_join(&mut s, "job", &join).0, 201);
    }
    (s, nodes)
}

#[test]
fn two_node_lifecycle_returns_a_bundle_and_rejects_a_forgery() {
    let mut s = Store::new();
    let keys = keys();
    let mut nodes = [node(&keys[0]), node(&keys[1])];
    for (i, n) in nodes.iter_mut().enumerate() {
        sign_record(n, &keys[i]).unwrap();
        assert_eq!(post_node(&mut s, n).0, 201);
    }
    let mut job = job_record(&nodes[0].pubkey);
    sign_record(&mut job, &keys[0]).unwrap();
    assert_eq!(post_job(&mut s, &job).0, 201);
    for (i, n) in nodes.iter().enumerate() {
        let mut join = join_record(n, i);
        sign_record(&mut join, &keys[i]).unwrap();
        assert_eq!(post_join(&mut s, "job", &join).0, 201);
        let mut result = result_record(n, i, "same");
        sign_record(&mut result, &keys[i]).unwrap();
        assert_eq!(post_result(&mut s, "job", &result).0, 201);
    }
    assert!(bundle(&s, "job").is_ok());
    let mut forged = nodes[0].clone();
    forged.operator_label = "tampered".into();
    assert_eq!(post_node(&mut s, &forged).0, 400);
}

// The JSON object of a node record, field by field.
fn node_json(n: &NodeRecord) -> serde_json::Map<String, Value> {
    let mut attestation = serde_json::Map::new();
    attestation.insert("quote_hex".into(), Value::String(n.attestation.quote_hex.clone()));
    attestation.insert("collateral_json".into(), Value::String(n.attestation.collateral_json.clone()));
    attestation.insert("event_log".into(), Value::String(n.attestation.event_log.clone()));
    let mut m = serde_json::Map::new();
    m.insert("node_id".into(), Value::String(n.node_id.clone()));
    m.insert("pubkey".into(), Value::String(n.pubkey.clone()));
    m.insert("endpoint".into(), Value::String(n.endpoint.clone()));
    m.insert("max_parties".into(), Value::from(n.max_parties));
    m.insert(
        "supported_thresholds".into(),
        Value::Array(n.supported_thresholds.iter().map(|t| Value::from(*t)).collect()),
    );
    m.insert("operator_label".into(), Value::String(n.operator_label.clone()));
    m.insert("attestation".into(), Value::Object(attestation));
    m.insert("announced_at".into(), Value::from(n.announced_at));
    m.insert("signature".into(), Value::String(n.signature.clone()));
    m
}

// What the service answers to a posted node before reading its fields: a
// record that is not an object, or that has a field the kind lacks, is refused.
fn post_node_value(s: &mut Store, value: Value, n: &NodeRecord) -> u16 {
    let object = match value.as_object() {
        Some(o) => o,
        None => return 400,
    };
    let keys: Vec<String> = object.keys().cloned().collect();
    if check_fields(&keys, RecordKind::Node).is_err() {
        return 400;
    }
    post_node(s, n).0
}

#[test]
fn unknown_fields_are_rejected() {
    let mut s = Store::new();
    let n = node(&[3; 32]);
    let mut value = node_json(&n);
    value.insert("unexpected".into(), Value::Bool(true));
    let keys: Vec<String> = value.keys().cloned().collect();
    assert_eq!(check_fields(&keys, RecordKind::Node), Err("unknown field: unexpected".to_string()));
    assert_eq!(post_node_value(&mut s, Value::Object(value), &n), 400);
    // The same record without the extra field gets past the field check.
    let signed = signed_node(&[3; 32]);
    assert_eq!(post_node_value(&mut s, Value::Object(node_json(&signed)), &signed), 201);
}

#[test]
fn commit_checks_again_and_leaves_a_refused_record_out() {
    let mut s = Store::new();
    let seed = [13u8; 32];
    let n = signed_node(&seed);
    s.commit_node(n.clone()).unwrap();
    let mut j = job_record(&n.pubkey);
    j.threshold = 1;
    sign_record(&mut j, &seed).unwrap();
    assert_eq!(s.commit_job(j), Err("job must be open and satisfy n >= 3t + 1".to_string()));
    assert!(job(&s, "job").is_none());
    let mut forged = n.clone();
    forged.endpoint = "elsewhere".into();
    assert!(s.commit_node(forged).is_err());
    assert_eq!(latest_node(&s, &n.node_id).unwrap().endpoint, "node:8080");
}

#[test]
fn the_bundle_holds_the_whole_lifecycle() {
    let (mut s, nodes) = joined_store();
    let k = keys();
    for (i, n) in nodes.iter().enumerate() {
        let mut r = result_record(n, i, "42");
        sign_record(&mut r, &k[i]).unwrap();
        assert_eq!(post_result(&mut s, "job", &r).0, 201);
    }
    let b = bundle(&s, "job").unwrap();
    assert_eq!(b.version, BUNDLE_VERSION);
    assert_eq!(b.version, 1);
    assert_eq!(b.job.job_id, "job");
    assert_eq!(b.nodes, nodes.to_vec());
    assert_eq!(b.joins.len(), 2);
    assert_eq!(b.joins[0].party_id, 0);
    assert_eq!(b.joins[1].party_id, 1);
    assert_eq!(b.results.len(), 2);
    assert!(b.results.iter().all(|r| r.value == "42"));
}

#[test]
fn a_bundle_for_an_unknown_job_is_refused() {
    let s = Store::new();
    let e = bundle(&s, "nope").unwrap_err();
    assert_eq!(e, BundleRefusal::UnknownJob);
    assert_eq!(e.status(), 404);
    assert_eq!(e.message(), "unknown job");
}

#[test]
fn a_bundle_before_every_result_is_refused() {
    let (mut s, nodes) = joined_store();
    let e = bundle(&s, "job").unwrap_err();
    assert_eq!(e, BundleRefusal::Incomplete);
    let mut r = result_record(&nodes[0], 0, "1");
    sign_record(&mut r, &keys()[0]).unwrap();
    assert_eq!(post_result(&mut s, "job", &r).0, 201);
    let e = bundle(&s, "job").unwrap_err();
    assert_eq!(e, BundleRefusal::Incomplete);
    assert_eq!(e.status(), 409);
    assert_eq!(e.message(), "job lifecycle is incomplete");
}

#[test]
fn a_bundle_whose_results_disagree_is_refused() {
    let (mut s, nodes) = joined_store();
    let k = keys();
    for (i, n) in nodes.iter().enumerate() {
        let mut r = result_record(n, i, if i == 0 { "1" } else { "2" });
        sign_record(&mut r, &k[i]).unwrap();
        assert_eq!(post_result(&mut s, "job", &r).0, 201);
    }
    let e = bundle(&s, "job").unwrap_err();
    assert_eq!(e, BundleRefusal::Disagree);
    assert_eq!(e.status(), 409);
    assert_eq!(e.message(), "results disagree");
}

#[test]
fn node_refusals_name_their_reason() {
    let mut s = Store::new();
    let seed = [5u8; 32];

    let mut n = node(&seed);
    n.node_id = "not-the-hash".into();
    sign_record(&mut n, &seed).unwrap();
    assert_eq!(post_node(&mut s, &n), (400, "node_id does not match pubkey".to_string()));

    let mut n = node(&seed);
    n.max_parties = 0;
    sign_record(&mut n, &seed).unwrap();
    assert_eq!(post_node(&mut s, &n), (400, "invalid node capabilities".to_string()));

    let mut n = node(&seed);
    n.supported_thresholds = vec![0, 1];
    sign_record(&mut n, &seed).unwrap();
    assert_eq!(post_node(&mut s, &n), (400, "invalid node capabilities".to_string()));

    let mut n = node(&seed);
    n.max_parties = 4;
    n.supported_thresholds = vec![0, 1];
    sign_record(&mut n, &seed).unwrap();
    assert_eq!(post_node(&mut s, &n).0, 201);

    let n = node(&seed);
    assert_eq!(post_node(&mut s, &n), (400, "signature is not 64 bytes".to_string()));
}

#[test]
fn a_node_id_stays_bound_to_its_first_key() {
    let mut s = Store::new();
    let a = [11u8; 32];
    let b = [12u8; 32];
    // A stored record may carry any id; the one read back binds the id of b's key to a's key.
    let mut old = node(&a);
    old.node_id = node_id_for(&public(&b));
    sign_record(&mut old, &a).unwrap();
    s.add_loaded(Record::Node(old)).unwrap();
    let fresh = signed_node(&b);
    assert_eq!(post_node(&mut s, &fresh), (400, "node identity is bound to another key".to_string()));
}

#[test]
fn an_announcement_can_be_renewed() {
    let mut s = Store::new();
    let seed = [6u8; 32];
    let first = signed_node(&seed);
    assert_eq!(post_node(&mut s, &first).0, 201);
    let mut second = node(&seed);
    second.endpoint = "other:9090".into();
    sign_record(&mut second, &seed).unwrap();
    assert_eq!(post_node(&mut s, &second).0, 201);
    assert_eq!(latest_node(&s, &first.node_id).unwrap().endpoint, "other:9090");
    assert!(latest_node(&s, "missing").is_none());
}

#[test]
fn job_refusals_name_their_reason() {
    let mut s = Store::new();
    let seed = [7u8; 32];
    let pk = hex::encode(public(&seed));

    let mut j = job_record(&pk);
    j.threshold = 1;
    sign_record(&mut j, &seed).unwrap();
    assert_eq!(post_job(&mut s, &j), (400, "job must be open and satisfy n >= 3t + 1".to_string()));

    let mut j = job_record(&pk);
    j.n_parties = 0;
    sign_record(&mut j, &seed).unwrap();
    assert_eq!(post_job(&mut s, &j).0, 400);

    let mut j = job_record(&pk);
    j.state = JobState::Forming;
    sign_record(&mut j, &seed).unwrap();
    assert_eq!(post_job(&mut s, &j).0, 400);

    let mut j = job_record(&pk);
    sign_record(&mut j, &seed).unwrap();
    assert_eq!(post_job(&mut s, &j).0, 201);
    assert_eq!(post_job(&mut s, &j), (400, "job_id already exists".to_string()));

    let mut other = job_record(&pk);
    other.entry = "other".into();
    sign_record(&mut other, &seed).unwrap();
    assert_eq!(post_job(&mut s, &other), (400, "job_id already has a different record".to_string()));
    assert_eq!(job(&s, "job").unwrap().entry, "main");

    let mut forged = j.clone();
    forged.entry = "forged".into();
    let (status, e) = post_job(&mut s, &forged);
    assert_eq!(status, 400);
    assert!(e.starts_with("signature does not verify: "), "{e}");
}

#[test]
fn join_refusals_name_their_reason() {
    let (mut s, nodes) = joined_store();
    let k = keys();

    let mut j = join_record(&nodes[0], 0);
    sign_record(&mut j, &k[0]).unwrap();
    assert_eq!(post_join(&mut s, "other", &j), (400, "path job id does not match record".to_string()));
    assert_eq!(post_join(&mut s, "job", &j), (400, "node or party already joined".to_string()));

    let mut j = join_record(&nodes[0], 0);
    j.job_id = "missing".into();
    sign_record(&mut j, &k[0]).unwrap();
    assert_eq!(post_join(&mut s, "missing", &j), (400, "unknown job".to_string()));

    let stranger = node(&[8u8; 32]);
    let mut j = join_record(&stranger, 0);
    sign_record(&mut j, &[8u8; 32]).unwrap();
    assert_eq!(post_join(&mut s, "job", &j), (400, "unknown node".to_string()));

    let mut j = join_record(&nodes[1], 2);
    sign_record(&mut j, &k[1]).unwrap();
    assert_eq!(post_join(&mut s, "job", &j), (400, "join key or party is invalid".to_string()));

    // A job that has moved past forming takes no joins.
    let mut running = job_record(&nodes[0].pubkey);
    running.job_id = "running".into();
    running.state = JobState::Running;
    sign_record(&mut running, &k[0]).unwrap();
    s.add_loaded(Record::Job(running)).unwrap();
    let mut j = join_record(&nodes[0], 0);
    j.job_id = "running".into();
    sign_record(&mut j, &k[0]).unwrap();
    assert_eq!(post_join(&mut s, "running", &j), (400, "job is not accepting joins".to_string()));
}

#[test]
fn result_refusals_name_their_reason() {
    let (mut s, nodes) = joined_store();
    let k = keys();

    let mut r = result_record(&nodes[0], 0, "v");
    sign_record(&mut r, &k[0]).unwrap();
    assert_eq!(post_result(&mut s, "other", &r), (400, "path job id does not match record".to_string()));

    let mut r = result_record(&nodes[0], 0, "v");
    r.job_id = "missing".into();
    sign_record(&mut r, &k[0]).unwrap();
    assert_eq!(post_result(&mut s, "missing", &r), (400, "unknown job".to_string()));

    let stranger = node(&[9u8; 32]);
    let mut r = result_record(&stranger, 0, "v");
    sign_record(&mut r, &[9u8; 32]).unwrap();
    assert_eq!(post_result(&mut s, "job", &r), (400, "unknown node".to_string()));

    let mut r = result_record(&nodes[0], 0, "v");
    r.program_id = "other-program".into();
    sign_record(&mut r, &k[0]).unwrap();
    assert_eq!(post_result(&mut s, "job", &r), (400, "result key or program is invalid".to_string()));

    let mut r = result_record(&nodes[0], 1, "v");
    sign_record(&mut r, &k[0]).unwrap();
    assert_eq!(post_result(&mut s, "job", &r), (400, "result has no matching join".to_string()));

    let mut r = result_record(&nodes[0], 0, "v");
    sign_record(&mut r, &k[0]).unwrap();
    assert_eq!(post_result(&mut s, "job", &r).0, 201);
    assert_eq!(post_result(&mut s, "job", &r), (400, "node already posted a result".to_string()));
}

#[test]
fn a_loaded_record_with_a_bad_signature_is_refused_and_not_kept() {
    let mut s = Store::new();
    let mut n = signed_node(&[3u8; 32]);
    n.endpoint = "elsewhere".into();
    let id = n.node_id.clone();
    let e = s.add_loaded(Record::Node(n)).unwrap_err();
    assert!(e.starts_with("signature does not verify: "), "{e}");
    assert!(latest_node(&s, &id).is_none());
}

#[test]
fn loaded_records_of_every_kind_are_kept() {
    let (s0, nodes) = joined_store();
    drop(s0);
    let k = keys();
    let mut s = Store::new();
    s.add_loaded(Record::Node(nodes[0].clone())).unwrap();
    let mut j = job_record(&nodes[0].pubkey);
    j.n_parties = 1;
    sign_record(&mut j, &k[0]).unwrap();
    s.add_loaded(Record::Job(j)).unwrap();
    let mut join = join_record(&nodes[0], 0);
    sign_record(&mut join, &k[0]).unwrap();
    s.add_loaded(Record::Join(join)).unwrap();
    let mut r = result_record(&nodes[0], 0, "9");
    sign_record(&mut r, &k[0]).unwrap();
    s.add_loaded(Record::Result(r)).unwrap();
    let b = bundle(&s, "job").unwrap();
    assert_eq!(b.results[0].value, "9");
    assert_eq!(b.nodes[0], nodes[0]);
}
