//! A session directory: it issues identity values and opaque session tokens,
//! associates each token with an identity and per-session metadata, keeps
//! that association in a time-limited key-value store, and answers which
//! identity belongs to a token and which sessions an identity currently has.
//! Expiry is delegated to the store's native time-to-live mechanism.

pub mod directory;
pub mod keys;
pub mod session;
pub mod text;
pub mod uuid;

pub use crate::directory::{Directory, Error, SessionRecord};
pub use crate::session::{Session, SessionInfo};
pub use crate::uuid::Uuid;
