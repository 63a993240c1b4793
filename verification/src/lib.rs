//! Authentication and session-management core: OTP-guarded registration,
//! password hashing, signed session tokens, and a cache-aside profile reader,
//! all specified and verified over explicit models of the durable store and
//! the TTL cache.

pub mod response;
pub mod strutil;
pub mod numeric;
pub mod base64url;
pub mod claims;
pub mod token;
pub mod hashing;
pub mod cache;
pub mod user;
pub mod store;
pub mod auth;
