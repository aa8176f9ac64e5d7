//! Preparation of DKIM-signed email data for a zero-knowledge circuit:
//! a SHA-256 midstate over a block-aligned prefix of the header, and the
//! signature and sender fields encoded as limbs and byte offsets.

pub mod bignum;
pub mod bundle;
pub mod dkim;
pub mod error;
pub mod limbs;
pub mod locator;
pub mod partial_hash;
pub mod pattern;
pub mod planner;
pub mod sender;
pub mod sha256;
pub mod text;
