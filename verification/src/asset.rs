use vstd::prelude::*;

verus! {

/// An opaque handle of an asset at the gateway.
pub type AssetId = [u8; 32];

} // verus!
