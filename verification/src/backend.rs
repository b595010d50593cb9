//! The choice between the two backends of the block cipher.
//!
//! The accelerated backend drives the processor's AES instructions and
//! stands outside this library; the portable one is `sisd`. Both compute the
//! same function, so the choice changes the speed of an operation and
//! nothing else. It is made once per operation, from what the processor
//! reports.
use vstd::prelude::*;

verus! {

/// A backend of the block cipher.
#[derive(Clone, Copy, Debug, PartialEq, Eq, Structural)]
pub enum Backend {
    /// The processor's AES instructions.
    Hardware,
    /// Portable code.
    Software,
}

/// The backend to use on a processor that does or does not report the AES
/// and the SSE2 instructions: the accelerated one where it has both.
pub fn select_backend(has_aes: bool, has_sse2: bool) -> (backend: Backend)
    ensures
        backend == (if has_aes && has_sse2 {
            Backend::Hardware
        } else {
            Backend::Software
        }),
{
    if has_aes && has_sse2 {
        Backend::Hardware
    } else {
        Backend::Software
    }
}

} // verus!
