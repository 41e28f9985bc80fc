//! A minimal HTTP request-routing and middleware-dispatch core.
//!
//! Routes are registered as `(method, pattern)` pairs in a per-method prefix
//! tree whose segments are literals, named parameters (`:name`) or a trailing
//! wildcard (`*name`).  A request is resolved to the matching trie node and a
//! parameter binding, an ordered middleware chain is assembled for it, and a
//! per-request context drives that chain through an explicit cursor with
//! layered ("onion") semantics.  Handlers themselves are opaque to the core:
//! the caller registers them under numeric identifiers and invokes the
//! identifier that the chain cursor hands back.

pub mod context;
pub mod defer;
pub mod engine;
pub mod header;
pub mod param;
pub mod params;
pub mod recovery;
pub mod router;
pub mod router_group;
pub mod trie;
pub mod utils;

