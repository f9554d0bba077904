//! What every component of the control plane shares.

use vstd::prelude::*;

pub mod certs;
pub mod error;
pub mod kubevirt;
pub mod meta;
pub mod metrics;
pub mod protobuf;
pub mod quantity;
pub mod rbac;
pub mod selector;
pub mod startup;
pub mod taint;
pub mod watch;

verus! {

/// The version of this program.
pub const VERSION: &'static str = "0.1.0";

} // verus!
