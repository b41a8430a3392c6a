//! Random bytes from the operating system.

use rand_core::{OsRng, RngCore};
use vstd::prelude::*;

verus! {

/// Calls `try_fill_bytes` of `rand_core` on `OsRng` with a buffer of 64 bytes.
/// Trusted, and nothing is claimed of the bytes: `None` stands for the error
/// that the call reports when the system's source fails.
#[verifier::external_body]
pub(crate) fn os_bytes() -> (r: Option<[u8; 64]>) {
    let mut buf = [0u8; 64];
    match OsRng.try_fill_bytes(&mut buf) {
        Ok(()) => Some(buf),
        Err(_) => None,
    }
}

} // verus!
