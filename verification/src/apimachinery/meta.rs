//! A `resourceVersion` is the revision of the store, written in decimal.

use vstd::prelude::*;

use crate::decimal::{dec, format_u64, law_numeral_reads_back, parse_u64, unsigned};

verus! {

/// The `resourceVersion` of a store revision.
pub fn revision_to_resource_version(revision: u64) -> (r: String)
    ensures
        r@ == dec(revision as nat),
{
    format_u64(revision)
}

/// The store revision that a `resourceVersion` names.
pub fn resource_version_to_revision(rv: &str) -> (r: Option<u64>)
    ensures
        match r {
            Some(n) => unsigned(rv@, u64::MAX as nat) == Some(n as nat),
            None => unsigned(rv@, u64::MAX as nat) is None,
        },
{
    parse_u64(rv)
}

/// Every revision survives the way to a `resourceVersion` and back.
pub proof fn law_revision_round_trip(revision: u64)
    ensures
        unsigned(dec(revision as nat), u64::MAX as nat) == Some(revision as nat),
{
    law_numeral_reads_back(revision as nat);
}

} // verus!
