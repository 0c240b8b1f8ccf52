//! Telling whether a process is alive from the files it keeps.
//!
//! A process keeps a guard file, which it holds a write lock on for as long
//! as it lives, and a cleanup file beside it. Another process reads the
//! state of the first off these two files, and may clean up after it once
//! it is dead. Looking at the files is not done here; this module decides
//! what follows from what was seen.

use vstd::prelude::*;

verus! {

/// What was seen of one of the two files.
#[derive(Debug, Clone, Copy, PartialEq, Eq, Structural, Hash)]
pub enum FileStatus {
    /// There is no such file.
    Missing,
    /// The file exists and only its owner may write it: its creator has
    /// not finished setting it up.
    OwnerWriteOnly,
    /// The file exists and is set up, and nobody holds a write lock on it.
    Unlocked,
    /// The file exists and is set up, and a process holds a write lock on
    /// it.
    Locked,
}

impl FileStatus {
    pub open spec fn spec_is_there(&self) -> bool {
        *self != FileStatus::Missing
    }

    pub fn is_there(&self) -> (present: bool)
        ensures
            present == self.spec_is_there(),
    {
        match self {
            FileStatus::Missing => false,
            _ => true,
        }
    }
}

/// The state of a process as another process sees it.
#[derive(Debug, Clone, Copy, PartialEq, Eq, Structural, Hash)]
pub enum ProcessState {
    Alive,
    Dead,
    DoesNotExist,
    Starting,
}

/// Why the state of a process could not be told.
#[derive(Debug, Clone, Copy, PartialEq, Eq, Structural, Hash)]
pub enum ProcessMonitorStateError {
    Interrupt,
    CorruptedState,
    UnknownError,
}

/// Why the right to clean up after a process could not be acquired.
#[derive(Debug, Clone, Copy, PartialEq, Eq, Structural, Hash)]
pub enum ProcessCleanerCreateError {
    ProcessIsStillAlive,
    OwnedByAnotherProcess,
    Interrupt,
    FailedToAcquireLockState,
    UnableToOpenStateFile,
    UnableToOpenCleanerFile,
    DoesNotExist,
    UnknownError,
}

/// The state of the process that keeps the two files.
///
/// Without either file there is no process. A guard file that is not set
/// up yet belongs to a process that is starting. A guard file with a lock
/// on it belongs to a live process. A guard file without a lock and with a
/// cleanup file beside it is left over from a dead process. A cleanup file
/// without a guard file, and a guard file that is set up and unlocked
/// without a cleanup file, cannot come about in order.
pub open spec fn spec_state(guard: FileStatus, cleanup: FileStatus) -> Result<
    ProcessState,
    ProcessMonitorStateError,
> {
    match guard {
        FileStatus::Missing => if cleanup.spec_is_there() {
            Err(ProcessMonitorStateError::CorruptedState)
        } else {
            Ok(ProcessState::DoesNotExist)
        },
        FileStatus::OwnerWriteOnly => Ok(ProcessState::Starting),
        FileStatus::Locked => Ok(ProcessState::Alive),
        FileStatus::Unlocked => if cleanup.spec_is_there() {
            Ok(ProcessState::Dead)
        } else {
            Err(ProcessMonitorStateError::CorruptedState)
        },
    }
}

/// Tells the state of the process that keeps the two files.
pub fn state(guard: FileStatus, cleanup: FileStatus) -> (result: Result<ProcessState, ProcessMonitorStateError>)
    ensures
        result == spec_state(guard, cleanup),
{
    match guard {
        FileStatus::Missing => if cleanup.is_there() {
            Err(ProcessMonitorStateError::CorruptedState)
        } else {
            Ok(ProcessState::DoesNotExist)
        },
        FileStatus::OwnerWriteOnly => Ok(ProcessState::Starting),
        FileStatus::Locked => Ok(ProcessState::Alive),
        FileStatus::Unlocked => if cleanup.is_there() {
            Ok(ProcessState::Dead)
        } else {
            Err(ProcessMonitorStateError::CorruptedState)
        },
    }
}

/// Whether the right to clean up after the process that keeps the two
/// files can be acquired: only if both files are set up, no live process
/// holds the lock on the guard file, and no other cleaner holds the lock
/// on the cleanup file.
pub open spec fn spec_acquire_cleaner(guard: FileStatus, cleanup: FileStatus) -> Result<
    (),
    ProcessCleanerCreateError,
> {
    match guard {
        FileStatus::Missing | FileStatus::OwnerWriteOnly => Err(ProcessCleanerCreateError::DoesNotExist),
        FileStatus::Locked => Err(ProcessCleanerCreateError::ProcessIsStillAlive),
        FileStatus::Unlocked => match cleanup {
            FileStatus::Missing | FileStatus::OwnerWriteOnly => Err(ProcessCleanerCreateError::DoesNotExist),
            FileStatus::Locked => Err(ProcessCleanerCreateError::OwnedByAnotherProcess),
            FileStatus::Unlocked => Ok(()),
        },
    }
}

/// Decides whether the right to clean up after a process can be acquired.
/// It is granted only for a process that is dead.
pub fn acquire_cleaner(guard: FileStatus, cleanup: FileStatus) -> (result: Result<(), ProcessCleanerCreateError>)
    ensures
        result == spec_acquire_cleaner(guard, cleanup),
        result.is_ok() ==> spec_state(guard, cleanup) == Ok::<ProcessState, ProcessMonitorStateError>(
            ProcessState::Dead,
        ),
{
    match guard {
        FileStatus::Missing | FileStatus::OwnerWriteOnly => Err(ProcessCleanerCreateError::DoesNotExist),
        FileStatus::Locked => Err(ProcessCleanerCreateError::ProcessIsStillAlive),
        FileStatus::Unlocked => match cleanup {
            FileStatus::Missing | FileStatus::OwnerWriteOnly => Err(ProcessCleanerCreateError::DoesNotExist),
            FileStatus::Locked => Err(ProcessCleanerCreateError::OwnedByAnotherProcess),
            FileStatus::Unlocked => Ok(()),
        },
    }
}

/// Once a cleaner holds the lock on the cleanup file, no second cleaner
/// gets the right while the first holds it.
pub proof fn lemma_cleaner_is_exclusive(guard: FileStatus)
    ensures
        spec_acquire_cleaner(guard, FileStatus::Locked).is_err(),
{
}

} // verus!
