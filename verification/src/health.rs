//! The health of a store. A daemon serves only from a store that is durable and provisioned.
use vstd::prelude::*;

verus! {

/// What a store says of itself.
#[derive(Clone, Copy, Debug)]
pub struct StoreHealth {
    /// Writes wait until they are on disk.
    pub durable: bool,
    /// The version of the schema; zero if there is none.
    pub schema_version: u32,
    /// How the store is reached.
    pub profile: &'static str,
}

impl StoreHealth {
    /// A store is healthy if and only if it is durable and a schema has been provisioned.
    pub fn is_healthy(&self) -> (healthy: bool)
        ensures
            healthy == (self.durable && self.schema_version > 0),
    {
        self.durable && self.schema_version > 0
    }
}

} // verus!
