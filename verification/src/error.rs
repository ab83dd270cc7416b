//! Typed failures the fixture surfaces to its callers; none is caught and
//! converted into a fallback value inside the fixture.
use vstd::prelude::*;

verus! {

#[derive(Debug)]
pub enum ContainerError {
    /// A shell command inside the container returned a non-zero exit code.
    CommandExecutionFailed { code: i64 },
    /// A shell command produced unexpected stderr output.
    CommandOutputFailed { command: String, stderr: String },
    /// The account-roster query returned empty output.
    InitializationFailed,
    /// The publish tool's output lacked the success marker.
    PublishFailed,
    /// An account could not be returned to the pool; a programming-level
    /// misuse, not a recoverable condition.
    ChannelClosed,
}

} // verus!
