//! Teleports of a chain's native asset to an account on another chain.
//!
//! A teleport is described by three versioned descriptors: where the assets
//! go, who receives them, and what they are. This library builds the
//! descriptors ([`teleport`]), writes them in the wire format and reads them
//! back ([`location`], [`assets`] and the modules below them), derives the
//! key pair that signs ([`signer`]), and decides how a submitted call moves
//! from signing to a final block or to a classified failure
//! ([`submission`]). It does no work on the network: the caller sends and
//! listens.

pub mod asset;
pub mod assets;
pub mod compact;
pub mod error;
pub mod junction;
pub mod legacy_asset;
pub mod location;
pub mod signer;
pub mod submission;
pub mod teleport;
pub mod version;
