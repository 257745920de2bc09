# stoffel_lobby

The lobby for attested MPC committees: signed node, job, join and result
records, and the service that indexes them. The lobby is an untrusted index —
every record carries a signature by the key that made it, and readers verify
rather than believe.

The library under `src/` is written in Verus and verified:

- `records`, `signed`, `json`, `domain`: the frozen record schema, its
  mathematical model, and the canonical JSON each record is signed over,
  with `serde_json`'s string escaping stated byte by byte.
- `canonical`: the canonical JSON of a record determines the record.
- `signing`, `hexcode`, `crypto`: signing preimages, signing, signature checks,
  public keys and node ids. Ed25519 and BLAKE3 are called through trusted
  wrappers whose contracts name their results.
- `store`, `admission`, `bundle`, `listing`: the service's store (every record
  it holds verifies), the checks a submitted record must pass, the evidence
  bundle of a job, and the node and job listings. Admissions keep the store
  consistent: committees, results and the records they refer to.
- `routes`, `http`, `intake`, `text`, `clock`: reading requests and routes,
  the allowed fields of each record kind, and small text helpers.

`app/` is the HTTP server around the library: sockets, the JSON-lines store
file, `serde` conversions and the process entry point. `tests/` exercises the
library from outside.

The service listens on `LOBBY_ADDR` (default `127.0.0.1:8080`) and appends
signed records to `LOBBY_STORE` (default `lobby.jsonl`); on start it re-reads
that file and re-verifies every record in it.
