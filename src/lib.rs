//! The verified core of a DNS seed: a rolling bloom filter, a BGP routing
//! table with AS lookup, the peer-scan state machine and the trusted peer's
//! header chain.

use vstd::prelude::*;

mod rng;
pub mod bloom;
pub mod routing;
pub mod bgp;
pub mod printer;
pub mod scan;
pub mod memory;
pub mod chain;

verus! {

} // verus!
