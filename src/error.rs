use vstd::prelude::*;

verus! {

/// Failures reported by the runtime layer.
#[derive(Debug, Clone, Copy, PartialEq, Eq, Structural)]
pub enum OclError {
    DeviceNotFound,
    ContextCreationFailed,
    QueueCreationFailed,
    BuildFailed,
    UnknownArgumentName,
    EnqueueFailed,
    CallbackRegistrationFailed,
    ReleaseFailed,
    VerificationMismatch,
}

} // verus!
