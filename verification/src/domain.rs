//! Domain-separation prefixes. Never reuse a value.
use vstd::prelude::*;

verus! {

pub const NODE: &'static str = "stoffel-lobby/node/v1";
pub const JOB: &'static str = "stoffel-lobby/job/v1";
pub const JOIN: &'static str = "stoffel-lobby/join/v1";
pub const RESULT: &'static str = "stoffel-lobby/result/v1";

} // verus!
