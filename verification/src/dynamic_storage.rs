//! What the layer that keeps a management block in a named shared region
//! reports to the connection built on it.

use vstd::prelude::*;

verus! {

/// Why a named region could not be created.
#[derive(Debug, Clone, Copy, PartialEq, Eq, Structural, Hash)]
pub enum DynamicStorageCreateError {
    AlreadyExists,
    InsufficientPermissions,
    InitializationFailed,
    InternalError,
}

/// Why a named region could not be opened.
#[derive(Debug, Clone, Copy, PartialEq, Eq, Structural, Hash)]
pub enum DynamicStorageOpenError {
    DoesNotExist,
    InitializationNotYetFinalized,
    VersionMismatch,
    InternalError,
}

/// Why a named region could neither be opened nor created.
#[derive(Debug, Clone, Copy, PartialEq, Eq, Structural, Hash)]
pub enum DynamicStorageOpenOrCreateError {
    DynamicStorageOpenError(DynamicStorageOpenError),
    DynamicStorageCreateError(DynamicStorageCreateError),
}

/// How far the creator of a named region has come.
#[derive(Debug, Clone, Copy, PartialEq, Eq, Structural, Hash)]
pub enum InitState {
    /// No region of that name exists.
    NotCreated,
    /// The region exists, and its creator is still filling it.
    CreatedNotInitialized,
    /// The creator has published the region as initialized.
    Initialized,
}

/// What a process that wants to open a named region does next.
#[derive(Debug, Clone, Copy, PartialEq, Eq, Structural, Hash)]
pub enum OpenStep {
    /// The region can be used.
    Proceed,
    /// The creator is still at work and the timeout has not passed: look
    /// again later.
    Wait,
    /// The attempt ends with this error.
    Fail(DynamicStorageOpenError),
}

/// The next step of an opener that has observed `state` after waiting for
/// `elapsed` out of `timeout` (both in the same unit).
pub open spec fn spec_open_step(state: InitState, elapsed: u128, timeout: u128) -> OpenStep {
    match state {
        InitState::NotCreated => OpenStep::Fail(DynamicStorageOpenError::DoesNotExist),
        InitState::Initialized => OpenStep::Proceed,
        InitState::CreatedNotInitialized => if elapsed < timeout {
            OpenStep::Wait
        } else {
            OpenStep::Fail(DynamicStorageOpenError::InitializationNotYetFinalized)
        },
    }
}

/// Decides the next step of an opener. An opener never uses a region before
/// its creator has published it, and never waits beyond the timeout.
pub fn open_step(state: InitState, elapsed: u128, timeout: u128) -> (step: OpenStep)
    ensures
        step == spec_open_step(state, elapsed, timeout),
        step == OpenStep::Proceed <==> state == InitState::Initialized,
        step == OpenStep::Wait ==> elapsed < timeout,
{
    match state {
        InitState::NotCreated => OpenStep::Fail(DynamicStorageOpenError::DoesNotExist),
        InitState::Initialized => OpenStep::Proceed,
        InitState::CreatedNotInitialized => if elapsed < timeout {
            OpenStep::Wait
        } else {
            OpenStep::Fail(DynamicStorageOpenError::InitializationNotYetFinalized)
        },
    }
}

} // verus!
