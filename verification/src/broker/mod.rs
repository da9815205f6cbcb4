//! The credential broker: real keys never leave the daemon; per-client relay bearers are swapped
//! for the real key at egress.
pub mod decide;
pub mod ledger;
pub mod policy;
pub mod token;

pub use decide::{decide, CanonRequest, DenyReason, RelayDecision, VerifiedBearer};
pub use policy::{clamp_ttl, Bearer, Method, Provider, RelayPolicy, MAX_BEARER_TTL_SECS};
pub use token::verify_bearer;
