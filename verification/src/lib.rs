//! Signed lobby records for attested MPC committees, and the lobby service's
//! decisions over them, verified with Verus.

pub mod hexcode;
pub mod crypto;
pub mod json;
pub mod domain;
pub mod records;
pub mod signed;
pub mod signing;
pub mod canonical;
pub mod text;
pub mod store;
pub mod admission;
pub mod bundle;
pub mod routes;
pub mod listing;
pub mod clock;
pub mod intake;
pub mod http;

pub use records::{
    AttestationBlob, EvidenceBundle, JobPolicy, JobRecord, JobState, JoinRecord, NodeRecord, ResultRecord,
    BUNDLE_VERSION,
};
pub use signed::Signed;
pub use signing::{node_id_for, public_key, sign_record, signing_preimage, verify_signature};
pub use store::{job, latest_node, Record, Store};
pub use bundle::{bundle, BundleRefusal};
pub use routes::{param, query, route_get, route_post, GetRoute, PostRoute};
pub use clock::now;
