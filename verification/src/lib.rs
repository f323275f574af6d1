//! A verified core for a URL-shortening service.
//!
//! The library maps long URLs to short base62 codes and resolves codes back
//! to URLs. It covers the parts with real design decisions: deterministic
//! checksum encoding of a URL (`slug`), the key-value mapping table with
//! expiry and an atomic create-if-absent write (`store`), and the bounded
//! collision-resolution protocol together with redirect resolution
//! (`resolver`). HTTP transport and process wiring live outside the library.

pub mod resolver;
pub mod slug;
pub mod store;
