//! A local secrets vault and credential broker.
//!
//! The vault keeps secrets encrypted at rest under a data key that is wrapped once per unlock
//! factor. Every security operation is written to a hash-chained audit log. The broker hands out
//! short-lived bearers in place of the real keys, and decides request by request whether the real
//! key may go out.
pub mod broker;
pub mod codec;
pub mod decimal;
pub mod engine;
pub mod entropy;
pub mod error;
pub mod event;
pub mod health;
pub mod keyslot;
pub mod laws;
pub mod primitives;
pub mod seam;
pub mod vault;

pub use broker::{
    clamp_ttl, Bearer, DenyReason, Method, Provider, RelayDecision, RelayPolicy,
    MAX_BEARER_TTL_SECS,
};
pub use engine::relay::{EgressReq, EgressResp, SwapOutcome, SwapStep};
pub use engine::{Engine, SecretMeta, Unlock};
pub use error::{EngineError, VaultState};
pub use event::{AuditRecord, EventSink, SecretEvent};
pub use health::StoreHealth;
pub use keyslot::{Argon2Params, Factor, Kdf, Keyslot};
pub use seam::{Clock, SystemClock, UsbProbe};
