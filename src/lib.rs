//! Group-membership reconciliation: a join of pending membership requests
//! against decoded group records, a token-balance eligibility rule over
//! 256-bit amounts, and the per-tick controller that sequences the remote
//! reads, the verifications and the submissions.
use vstd::prelude::*;

pub mod amount;
pub mod join;
pub mod model;
pub mod controller;
pub mod text;
pub mod eligibility;
pub mod abi;
pub mod address;
