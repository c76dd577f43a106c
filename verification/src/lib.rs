use vstd::prelude::*;

pub mod dispatch;
pub mod error;
pub mod messages;
pub mod ordered_map;
pub mod roundtrip;
pub mod serialization;
pub mod wire_values;

verus! {

/// Wire-level API version.
#[derive(Debug, Clone, Copy, PartialEq, Eq)]
pub struct ApiVersion(pub i16);

impl ApiVersion {
    pub fn new(v: i16) -> (r: ApiVersion)
        ensures
            r.0 == v,
    {
        ApiVersion(v)
    }
}

/// Wire-level API key.
#[derive(Debug, Clone, Copy, PartialEq, Eq)]
pub struct ApiKey(pub i16);

impl ApiKey {
    pub fn new(v: i16) -> (r: ApiKey)
        ensures
            r.0 == v,
    {
        ApiKey(v)
    }
}

} // verus!
