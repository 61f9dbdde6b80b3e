//! Muting the local output while this machine sends its audio.
use vstd::prelude::*;

verus! {

/// The error type of the operations that can fail on other platforms.
#[verifier::external_type_specification]
#[verifier::external_body]
pub struct ExAnyhowError(anyhow::Error);

/// Mutes or unmutes the default output device. Away from Windows there is no
/// endpoint-volume interface to drive, and the call succeeds without effect.
pub fn set_output_muted(_muted: bool) -> (r: Result<(), anyhow::Error>)
    ensures
        r is Ok,
{
    Ok(())
}

} // verus!
