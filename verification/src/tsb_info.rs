//! Bond metadata.

use vstd::prelude::*;
use crate::scalar::Scalar;

verus! {

/// What is known of a bond token: the token it pays out in, and when it matures.
#[derive(Clone, Copy, Debug, PartialEq, Eq, Structural)]
pub struct TSBInfo {
    pub base_token_id: u64,
    pub maturity: Scalar,
}

impl Default for TSBInfo {
    fn default() -> (r: Self)
        ensures
            r == TSBInfo::spec_default(),
    {
        TSBInfo { base_token_id: 0, maturity: Scalar::zero() }
    }
}

impl TSBInfo {
    /// The metadata of a bond that was never created.
    pub open spec fn spec_default() -> TSBInfo {
        TSBInfo { base_token_id: 0, maturity: Scalar::spec_new(0) }
    }
}

} // verus!
