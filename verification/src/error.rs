//! Why an operation against the engine, the registry, or a remote exec failed.
use vstd::prelude::*;

verus! {

#[derive(Clone, Copy, PartialEq, Eq, Structural, Debug)]
pub enum Error {
    /// The container engine could not be reached or refused the operation.
    EngineUnavailable,
    /// The tag registry could not be reached or answered malformed.
    RegistryUnavailable,
    /// The pull loop could not make the image locally visible.
    ImageResolutionExhausted,
    /// Remote command output failed to parse into the expected structure.
    MalformedRemoteOutput,
    /// An exec ran detached, so its output could not be read.
    RemoteExecutionDetached,
    /// The resource was removed but its backing volume was not; the volume
    /// may be orphaned, and nothing is rolled back.
    PartialRemoval,
}

pub open spec fn error_message_spec(e: Error) -> Seq<char> {
    match e {
        Error::EngineUnavailable => "failed to reach the container engine"@,
        Error::RegistryUnavailable => "failed to reach the registry"@,
        Error::ImageResolutionExhausted => "pulled image did not become visible"@,
        Error::MalformedRemoteOutput => "failed to parse remote output"@,
        Error::RemoteExecutionDetached => "exec process detached"@,
        Error::PartialRemoval => "container removed but volume removal failed"@,
    }
}

impl Error {
    /// A fixed description of the failure, for display by the caller.
    pub fn message(&self) -> (r: &'static str)
        ensures
            r@ == error_message_spec(*self),
    {
        match self {
            Error::EngineUnavailable => "failed to reach the container engine",
            Error::RegistryUnavailable => "failed to reach the registry",
            Error::ImageResolutionExhausted => "pulled image did not become visible",
            Error::MalformedRemoteOutput => "failed to parse remote output",
            Error::RemoteExecutionDetached => "exec process detached",
            Error::PartialRemoval => "container removed but volume removal failed",
        }
    }
}

} // verus!
