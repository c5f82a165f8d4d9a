#![verifier::loop_isolation(false)]
use vstd::prelude::*;

pub mod api;
pub mod codec;
pub mod db;
pub mod imap;
pub mod records;

verus! {

/// Page size used for block listings when the caller does not give one.
pub fn default_limit() -> (r: u32)
    ensures
        r == 50,
{
    50
}

} // verus!
