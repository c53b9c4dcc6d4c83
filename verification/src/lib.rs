//! A verified core for a caching embeddings proxy.
//!
//! The crate memoizes embedding vectors keyed by a fingerprint of
//! `(input, model, dimensions)`. A request whose inputs are partly cached
//! leads to one coalesced upstream call on the misses only, after which the
//! response is reassembled in the client's input order. The surrounding HTTP
//! plumbing lives outside this crate; everything here is plain data in, plain
//! data out, with contracts proved by Verus.

pub mod errors;
pub mod decimal;
pub mod fingerprint;
pub mod codec;
pub mod request;
pub mod store;
pub mod embeddings;
pub mod routing;
