//! MD5 and SHA-1 message digests.
//!
//! Each engine buffers the bytes it is given, then pads the whole message
//! and compresses it block by block when finalized. The spec functions of
//! each module state the padded message, the compression function and the
//! digest of a message; the engines are proved to compute exactly those.
use vstd::prelude::*;

pub mod md5;
pub mod sha1;
pub mod word;

verus! {

} // verus!
