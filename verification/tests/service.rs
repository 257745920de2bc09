use ed25519_dalek::SigningKey;
use stoffel_lobby::http::{content_length, head_progress, reason_phrase, request_parts, trim, HeadProgress, MAX_HEAD_BYTES};
use stoffel_lobby::intake::{check_fields, record_kind, RecordKind};
use stoffel_lobby::listing::freshness_cutoff;
use stoffel_lobby::text::{parse_unsigned, text_contains, text_eq_ignore_ascii_case};
use stoffel_lobby::{
    node_id_for, now, param, query, route_get, route_post, sign_record, AttestationBlob, GetRoute, JobPolicy,
    JobRecord, JobState, NodeRecord, PostRoute, Record, Store,
};

fn node(seed: u8, announced_at: u64, event_log: &str, endpoint: &str) -> NodeRecord {
    let key = [seed; 32];
    let pk = SigningKey::from_bytes(&key).verifying_key().to_bytes();
    let mut n = NodeRecord {
        node_id: node_id_for(&pk),
        pubkey: hex::encode(pk),
        endpoint: endpoint.into(),
        max_parties: 4,
        supported_thresholds: vec![1],
        operator_label: "op".into(),
        attestation: AttestationBlob {
            quote_hex: "q-abc".into(),
            collateral_json: "{}".into(),
            event_log: event_log.into(),
        },
        announced_at,
        signature: String::new(),
    };
    sign_record(&mut n, &key).unwrap();
    n
}

fn job(id: &str, state: JobState) -> JobRecord {
    let key = [21u8; 32];
    let pk = SigningKey::from_bytes(&key).verifying_key().to_bytes();
    let mut j = JobRecord {
        job_id: id.into(),
        program_id: "p".into(),
        program_url: Some("https://example/p".into()),
        entry: "main".into(),
        n_parties: 4,
        threshold: 1,
        policy: JobPolicy { allowed_measurements: vec!["m".into()], allowed_compose_hashes: vec![] },
        not_before: Some(3),
        state,
        proposer: hex::encode(pk),
        created_at: 10,
        signature: String::new(),
    };
    sign_record(&mut j, &key).unwrap();
    j
}

#[test]
fn query_splits_route_and_parameters() {
    let (route, params) = query("/nodes?measurement=abc&freshness=60");
    assert_eq!(route, "/nodes");
    assert_eq!(params, vec![("measurement", "abc"), ("freshness", "60")]);
    assert_eq!(param(&params, "freshness"), Some("60"));
    assert_eq!(param(&params, "state"), None);
}

#[test]
fn query_drops_pieces_without_equals_and_keeps_the_first_split() {
    let (route, params) = query("/jobs?flag&state=open&x=a=b&&state=closed");
    assert_eq!(route, "/jobs");
    assert_eq!(params, vec![("state", "open"), ("x", "a=b"), ("state", "closed")]);
    assert_eq!(param(&params, "state"), Some("open"));
    let (route, params) = query("/nodes");
    assert_eq!(route, "/nodes");
    assert!(params.is_empty());
    let (route, params) = query("/a?b?c=d");
    assert_eq!(route, "/a");
    assert_eq!(params, vec![("b?c", "d")]);
}

#[test]
fn post_routes() {
    assert!(matches!(route_post("/nodes"), PostRoute::Nodes));
    assert!(matches!(route_post("/jobs"), PostRoute::Jobs));
    assert!(matches!(route_post("/jobs/abc/join"), PostRoute::Join("abc")));
    assert!(matches!(route_post("/jobs/abc/result"), PostRoute::Result("abc")));
    assert!(matches!(route_post("/jobs//join"), PostRoute::Join("")));
    assert!(matches!(route_post("/jobs/a/b/result"), PostRoute::Result("a/b")));
    assert!(matches!(route_post("/jobs/abc"), PostRoute::NotFound));
    assert!(matches!(route_post("/other"), PostRoute::NotFound));
}

#[test]
fn get_routes() {
    assert!(matches!(route_get("/jobs/abc/bundle"), GetRoute::Bundle("abc")));
    assert!(matches!(route_get("/jobs//bundle"), GetRoute::Bundle("")));
    assert!(matches!(route_get("/nodes"), GetRoute::Nodes));
    assert!(matches!(route_get("/jobs"), GetRoute::Jobs));
    assert!(matches!(route_get("/jobs/bundle"), GetRoute::NotFound));
    assert!(matches!(route_get("/"), GetRoute::NotFound));
}

#[test]
fn freshness_is_counted_back_from_now() {
    assert_eq!(freshness_cutoff(Some("60"), 1000), Some(940));
    assert_eq!(freshness_cutoff(Some("+60"), 1000), Some(940));
    assert_eq!(freshness_cutoff(Some("2000"), 1000), Some(0));
    assert_eq!(freshness_cutoff(Some("soon"), 1000), None);
    assert_eq!(freshness_cutoff(Some(""), 1000), None);
    assert_eq!(freshness_cutoff(None, 1000), None);
    assert_eq!(freshness_cutoff(Some("18446744073709551616"), 1000), None);
}

#[test]
fn the_node_listing_shows_the_latest_of_each_node_newest_first() {
    let mut s = Store::new();
    let a1 = node(31, 100, "boot measurement-a", "a:1");
    let b = node(32, 200, "boot measurement-b", "b:1");
    let a2 = node(31, 300, "boot measurement-a", "a:2");
    for n in [&a1, &b, &a2] {
        s.add_loaded(Record::Node(n.clone())).unwrap();
    }
    let all = s.list_nodes(None, None);
    assert_eq!(all, vec![a2.clone(), b.clone()]);
    assert_eq!(s.list_nodes(Some("measurement-b"), None), vec![b.clone()]);
    assert_eq!(s.list_nodes(Some("q-ab"), None), vec![a2.clone(), b.clone()]);
    assert_eq!(s.list_nodes(Some("nowhere"), None), Vec::<NodeRecord>::new());
    assert_eq!(s.list_nodes(None, Some(250)), vec![a2.clone()]);
    // The older record of a node is not listed in place of a newer one that is filtered out.
    assert_eq!(s.list_nodes(None, Some(301)), Vec::<NodeRecord>::new());
}

#[test]
fn the_job_listing_filters_by_state_ignoring_case() {
    let mut s = Store::new();
    let j1 = job("one", JobState::Open);
    let j2 = job("two", JobState::Running);
    let j1b = job("one", JobState::Finished);
    for j in [&j1, &j2, &j1b] {
        s.add_loaded(Record::Job(j.clone())).unwrap();
    }
    assert_eq!(s.list_jobs(None), vec![j1b.clone(), j2.clone()]);
    assert_eq!(s.list_jobs(Some("RUNNING")), vec![j2.clone()]);
    assert_eq!(s.list_jobs(Some("finished")), vec![j1b.clone()]);
    assert_eq!(s.list_jobs(Some("open")), Vec::<JobRecord>::new());
    assert_eq!(s.list_jobs(Some("\"open\"")), Vec::<JobRecord>::new());
}

#[test]
fn the_head_ends_after_the_first_blank_line() {
    assert_eq!(head_progress(b"GET / HTTP/1.1\r\nHost: x\r\n\r\nbody"), HeadProgress::Complete(27));
    assert_eq!(head_progress(b"\r\n\r\n\r\n\r\n"), HeadProgress::Complete(4));
    assert_eq!(head_progress(b"GET / HTTP/1.1\r\n"), HeadProgress::Incomplete);
    assert_eq!(head_progress(b""), HeadProgress::Incomplete);
    let big = vec![b'a'; MAX_HEAD_BYTES + 1];
    assert_eq!(head_progress(&big), HeadProgress::TooLarge);
    let at_limit = vec![b'a'; MAX_HEAD_BYTES];
    assert_eq!(head_progress(&at_limit), HeadProgress::Incomplete);
}

#[test]
fn content_length_is_read_from_either_spelling() {
    assert_eq!(content_length("POST / HTTP/1.1\r\nContent-Length: 12\r\n\r\n"), 12);
    assert_eq!(content_length("POST / HTTP/1.1\r\ncontent-length:7\r\n\r\n"), 7);
    assert_eq!(content_length("POST / HTTP/1.1\nContent-Length:  +5  \n\n"), 5);
    assert_eq!(content_length("POST / HTTP/1.1\r\nCONTENT-LENGTH: 9\r\n\r\n"), 0);
    assert_eq!(content_length("POST / HTTP/1.1\r\nContent-Length: x\r\nContent-Length: 4\r\n\r\n"), 4);
    assert_eq!(content_length("POST / HTTP/1.1\r\n\r\n"), 0);
}

#[test]
fn the_request_line_and_body_are_found() {
    let req = "POST /jobs?x=1 HTTP/1.1\r\nContent-Length: 2\r\n\r\n{}";
    assert_eq!(request_parts(req), ("POST", "/jobs?x=1", "{}"));
    assert_eq!(request_parts("GET\r\n\r\n"), ("GET", "", ""));
    assert_eq!(request_parts("  GET   /nodes  HTTP/1.1\r\n\r\n"), ("GET", "/nodes", ""));
    assert_eq!(request_parts("GET / HTTP/1.1\r\n"), ("GET", "/", ""));
    assert_eq!(request_parts("POST / HTTP/1.1\r\n\r\na\r\n\r\nb"), ("POST", "/", "a"));
}

#[test]
fn reason_phrases() {
    assert_eq!(reason_phrase(200), "OK");
    assert_eq!(reason_phrase(201), "Created");
    assert_eq!(reason_phrase(400), "Bad Request");
    assert_eq!(reason_phrase(404), "Not Found");
    assert_eq!(reason_phrase(409), "Conflict");
    assert_eq!(reason_phrase(500), "Error");
}

#[test]
fn trim_removes_unicode_whitespace_at_both_ends() {
    assert_eq!(trim("  12 \t"), "12");
    assert_eq!(trim("\u{a0}x y\u{3000}"), "x y");
    assert_eq!(trim("   "), "");
    assert_eq!(trim(""), "");
}

#[test]
fn record_kinds_and_their_fields() {
    assert_eq!(record_kind("node"), Ok(RecordKind::Node));
    assert_eq!(record_kind("job"), Ok(RecordKind::Job));
    assert_eq!(record_kind("join"), Ok(RecordKind::Join));
    assert_eq!(record_kind("result"), Ok(RecordKind::Result));
    assert_eq!(record_kind("Node"), Err("unknown record kind: Node".to_string()));
    assert_eq!(RecordKind::Result.name(), "result");
    assert_eq!(RecordKind::Join.fields(), vec!["job_id", "node_id", "pubkey", "party_id", "joined_at", "signature"]);
    let keys: Vec<String> = vec!["job_id".into(), "signature".into()];
    assert_eq!(check_fields(&keys, RecordKind::Join), Ok(()));
    let keys: Vec<String> = vec!["b".into(), "a".into()];
    assert_eq!(check_fields(&keys, RecordKind::Job), Err("unknown field: b".to_string()));
}

#[test]
fn numbers_and_text() {
    assert_eq!(parse_unsigned("0", u64::MAX), Some(0));
    assert_eq!(parse_unsigned("18446744073709551615", u64::MAX), Some(u64::MAX));
    assert_eq!(parse_unsigned("18446744073709551616", u64::MAX), None);
    assert_eq!(parse_unsigned("12", 11), None);
    assert_eq!(parse_unsigned("-1", u64::MAX), None);
    assert_eq!(parse_unsigned("+", u64::MAX), None);
    assert_eq!(parse_unsigned(" 1", u64::MAX), None);
    assert!(text_contains("boot measurement", "meas"));
    assert!(text_contains("abc", ""));
    assert!(!text_contains("ab", "abc"));
    assert!(text_eq_ignore_ascii_case("Forming", "fORMING"));
    assert!(!text_eq_ignore_ascii_case("open", "opens"));
}

#[test]
fn the_clock_reads_after_the_epoch() {
    let t = now().unwrap();
    assert!(t > 1_600_000_000);
}
