//! What a submitted or stored record may look like before it is read: its
//! kind, and the field names each kind allows. Unknown fields are refused
//! rather than ignored.
use vstd::prelude::*;
use crate::text::text_eq;

verus! {

/// The four kinds of record.
#[derive(Debug, Clone, Copy, PartialEq, Eq, Structural)]
pub enum RecordKind {
    Node,
    Job,
    Join,
    Result,
}

/// The name of each kind as the store writes it.
pub open spec fn kind_name(k: RecordKind) -> Seq<char> {
    match k {
        RecordKind::Node => "node"@,
        RecordKind::Job => "job"@,
        RecordKind::Join => "join"@,
        RecordKind::Result => "result"@,
    }
}

/// The fields each kind of record has, in declaration order.
pub open spec fn kind_fields(k: RecordKind) -> Seq<Seq<char>> {
    match k {
        RecordKind::Node => seq![
            "node_id"@, "pubkey"@, "endpoint"@, "max_parties"@, "supported_thresholds"@,
            "operator_label"@, "attestation"@, "announced_at"@, "signature"@,
        ],
        RecordKind::Job => seq![
            "job_id"@, "program_id"@, "program_url"@, "entry"@, "n_parties"@, "threshold"@,
            "policy"@, "not_before"@, "state"@, "proposer"@, "created_at"@, "signature"@,
        ],
        RecordKind::Join => seq!["job_id"@, "node_id"@, "pubkey"@, "party_id"@, "joined_at"@, "signature"@],
        RecordKind::Result => seq![
            "job_id"@, "node_id"@, "pubkey"@, "party_id"@, "value"@, "program_id"@,
            "completed_at"@, "signature"@,
        ],
    }
}

impl RecordKind {
    /// The name the store writes for this kind.
    pub fn name(&self) -> (n: &'static str)
        ensures
            n@ == kind_name(*self),
    {
        match self {
            RecordKind::Node => "node",
            RecordKind::Job => "job",
            RecordKind::Join => "join",
            RecordKind::Result => "result",
        }
    }

    /// The field names a record of this kind may have.
    pub fn fields(&self) -> (f: Vec<&'static str>)
        ensures
            f@.map_values(|s: &str| s@) == kind_fields(*self),
    {
        let f = match self {
            RecordKind::Node => vec![
                "node_id", "pubkey", "endpoint", "max_parties", "supported_thresholds",
                "operator_label", "attestation", "announced_at", "signature",
            ],
            RecordKind::Job => vec![
                "job_id", "program_id", "program_url", "entry", "n_parties", "threshold", "policy",
                "not_before", "state", "proposer", "created_at", "signature",
            ],
            RecordKind::Join => vec!["job_id", "node_id", "pubkey", "party_id", "joined_at", "signature"],
            RecordKind::Result => vec![
                "job_id", "node_id", "pubkey", "party_id", "value", "program_id", "completed_at",
                "signature",
            ],
        };
        assert(f@.map_values(|s: &str| s@) =~= kind_fields(*self));
        f
    }
}

/// The kind a stored record names, or an error naming the unknown kind.
pub fn record_kind(kind: &str) -> (r: Result<RecordKind, String>)
    ensures
        r matches Ok(k) ==> kind_name(k) == kind@,
        r is Err <==> (kind@ != "node"@ && kind@ != "job"@ && kind@ != "join"@ && kind@ != "result"@),
        r matches Err(e) ==> e@ == "unknown record kind: "@ + kind@,
{
    if text_eq(kind, "node") {
        Ok(RecordKind::Node)
    } else if text_eq(kind, "job") {
        Ok(RecordKind::Job)
    } else if text_eq(kind, "join") {
        Ok(RecordKind::Join)
    } else if text_eq(kind, "result") {
        Ok(RecordKind::Result)
    } else {
        let mut e = "unknown record kind: ".to_owned();
        e.append(kind);
        Err(e)
    }
}

/// The first of `keys`, from position `start` on, that `allowed` does not hold.
pub open spec fn first_unknown(keys: Seq<Seq<char>>, allowed: Seq<Seq<char>>, start: int) -> Option<Seq<char>>
    decreases keys.len() - start,
{
    if start >= keys.len() || start < 0 {
        None
    } else if !allowed.contains(keys[start]) {
        Some(keys[start])
    } else {
        first_unknown(keys, allowed, start + 1)
    }
}

/// Refuses a record whose field names are not all fields of its kind, naming
/// the first unknown one in the order given.
pub fn check_fields(keys: &Vec<String>, kind: RecordKind) -> (r: Result<(), String>)
    ensures
        match first_unknown(keys@.map_values(|s: String| s@), kind_fields(kind), 0) {
            None => r is Ok,
            Some(k) => r matches Err(e) && e@ == "unknown field: "@ + k,
        },
{
    let allowed = kind.fields();
    let ghost ks = keys@.map_values(|s: String| s@);
    let ghost al = kind_fields(kind);
    let mut i: usize = 0;
    while i < keys.len()
        invariant
            ks == keys@.map_values(|s: String| s@),
            al == kind_fields(kind),
            allowed@.map_values(|s: &str| s@) == al,
            i <= keys@.len(),
            first_unknown(ks, al, 0) == first_unknown(ks, al, i as int),
        decreases keys@.len() - i,
    {
        let key = keys[i].as_str();
        let mut known = false;
        let mut j: usize = 0;
        while j < allowed.len()
            invariant
                allowed@.map_values(|s: &str| s@) == al,
                j <= allowed@.len(),
                known == (exists|k: int| 0 <= k < j && al[k] == key@),
            decreases allowed@.len() - j,
        {
            if text_eq(allowed[j], key) {
                known = true;
            }
            assert(al[j as int] == allowed@[j as int]@);
            j = j + 1;
        }
        assert(ks[i as int] == key@);
        if !known {
            assert(!al.contains(key@));
            let mut e = "unknown field: ".to_owned();
            e.append(key);
            return Err(e);
        }
        assert(al.contains(key@));
        i = i + 1;
    }
    Ok(())
}

/// The field check refuses the first key, in the order given, that the kind
/// does not allow, and passes exactly when the kind allows every key.
pub proof fn lemma_first_unknown(keys: Seq<Seq<char>>, allowed: Seq<Seq<char>>, start: int)
    requires
        0 <= start <= keys.len(),
    ensures
        match first_unknown(keys, allowed, start) {
            None => forall|i: int| start <= i < keys.len() ==> allowed.contains(#[trigger] keys[i]),
            Some(k) => exists|i: int|
                start <= i < keys.len() && #[trigger] keys[i] == k && !allowed.contains(k) && forall|j: int|
                    start <= j < i ==> allowed.contains(#[trigger] keys[j]),
        },
    decreases keys.len() - start,
{
    if start < keys.len() && allowed.contains(keys[start]) {
        lemma_first_unknown(keys, allowed, start + 1);
        match first_unknown(keys, allowed, start + 1) {
            None => {},
            Some(k) => {
                let i = choose|i: int|
                    start + 1 <= i < keys.len() && #[trigger] keys[i] == k && !allowed.contains(k) && forall|j: int|
                        start + 1 <= j < i ==> allowed.contains(#[trigger] keys[j]);
            },
        }
    }
}

} // verus!
