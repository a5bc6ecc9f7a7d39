//! Random bytes from the operating system.

use vstd::prelude::*;

verus! {

/// `getrandom::getrandom` into a buffer of `n` zero bytes; its error, after
/// which the contents are unspecified, is passed over. Only the length is
/// claimed: the bytes are chance.
#[verifier::external_body]
pub(crate) fn random_bytes(n: usize) -> (buf: Vec<u8>)
    ensures
        buf@.len() == n,
{
    let mut buf = vec![0u8; n];
    let _ = getrandom::getrandom(&mut buf);
    buf
}

} // verus!
