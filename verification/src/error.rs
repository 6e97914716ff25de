//! The failure taxonomy of the driver.

use vstd::prelude::*;

verus! {

/// Everything that can abort the probe, a single command, or the whole
/// initialization sequence.
#[derive(Clone, Copy, Debug, PartialEq, Eq)]
pub enum DriverError {
    /// The platform's hardware description says no controller exists;
    /// initialization must not run.
    ControllerAbsent,
    /// The configuration byte read during bring-up had its system flag
    /// clear: firmware never passed its power-on self test, so the
    /// controller state cannot be trusted.
    PostNotPassed,
    /// The controller self test returned a failing or unrecognized code;
    /// terminal for the whole sequence.
    SelfTestFailed,
    /// The interface test of the given channel failed; carries the channel
    /// (1 or 2) and the raw fault code for diagnostics.
    PortTestFailed(u8, u8),
    /// The device on the given channel did not answer a reset with the
    /// expected acknowledge / self-test-passed pair.
    ResetFailed(u8),
    /// The bounded retry budget of a blocking port read or write ran out:
    /// the peripheral is unresponsive.
    PortTimeout,
}

} // verus!
