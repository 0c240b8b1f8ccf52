use zero_copy_transport::process_state::{
    acquire_cleaner, state, FileStatus, ProcessCleanerCreateError, ProcessMonitorStateError, ProcessState,
};

/// The two files of a process as a monitor finds them.
struct Files {
    guard: FileStatus,
    cleanup: FileStatus,
}

impl Files {
    fn none() -> Self {
        Self { guard: FileStatus::Missing, cleanup: FileStatus::Missing }
    }

    fn state(&self) -> Result<ProcessState, ProcessMonitorStateError> {
        state(self.guard, self.cleanup)
    }

    fn cleaner(&self) -> Result<(), ProcessCleanerCreateError> {
        acquire_cleaner(self.guard, self.cleanup)
    }
}

#[test]
fn process_state_monitor_detects_dead_state() {
    let mut files = Files { guard: FileStatus::Unlocked, cleanup: FileStatus::Unlocked };
    assert_eq!(files.state().unwrap(), ProcessState::Dead);
    files.guard = FileStatus::Missing;
    // a cleanup file without a guard file cannot come about in order
    assert_eq!(files.state().err().unwrap(), ProcessMonitorStateError::CorruptedState);
    files.cleanup = FileStatus::Missing;
    assert_eq!(files.state().unwrap(), ProcessState::DoesNotExist);
}

#[test]
fn process_state_monitor_detects_non_existing_state() {
    let files = Files::none();
    assert_eq!(files.state().unwrap(), ProcessState::DoesNotExist);
}

#[test]
fn process_state_monitor_transitions_work_starting_from_non_existing_process() {
    let mut files = Files::none();
    assert_eq!(files.state().unwrap(), ProcessState::DoesNotExist);
    files.guard = FileStatus::Unlocked;
    files.cleanup = FileStatus::Unlocked;

    assert_eq!(files.state().unwrap(), ProcessState::Dead);
    files.cleanup = FileStatus::Missing;
    assert_eq!(files.state().err().unwrap(), ProcessMonitorStateError::CorruptedState);
    files.guard = FileStatus::Missing;
    assert_eq!(files.state().unwrap(), ProcessState::DoesNotExist);
}

#[test]
fn process_state_monitor_transitions_work_starting_from_existing_process() {
    let mut files = Files { guard: FileStatus::Unlocked, cleanup: FileStatus::Unlocked };
    assert_eq!(files.state().unwrap(), ProcessState::Dead);
    files.guard = FileStatus::Missing;
    files.cleanup = FileStatus::Missing;
    assert_eq!(files.state().unwrap(), ProcessState::DoesNotExist);

    files.guard = FileStatus::Unlocked;
    files.cleanup = FileStatus::Unlocked;
    assert_eq!(files.state().unwrap(), ProcessState::Dead);
}

#[test]
fn process_state_monitor_detects_initialized_state() {
    let mut files = Files { guard: FileStatus::OwnerWriteOnly, cleanup: FileStatus::Missing };
    assert_eq!(files.state().unwrap(), ProcessState::Starting);
    files.guard = FileStatus::Missing;
    assert_eq!(files.state().unwrap(), ProcessState::DoesNotExist);
}

#[test]
fn process_state_cleaner_cannot_be_created_when_process_does_not_exist() {
    let mut files = Files::none();
    assert_eq!(files.cleaner().err().unwrap(), ProcessCleanerCreateError::DoesNotExist);

    files.guard = FileStatus::OwnerWriteOnly;
    assert_eq!(files.cleaner().err().unwrap(), ProcessCleanerCreateError::DoesNotExist);

    files.cleanup = FileStatus::OwnerWriteOnly;
    assert_eq!(files.cleaner().err().unwrap(), ProcessCleanerCreateError::DoesNotExist);
}

#[test]
fn process_state_monitor_detects_alive_state_from_existing_process() {
    let mut files = Files { guard: FileStatus::Locked, cleanup: FileStatus::Unlocked };
    assert_eq!(files.state().unwrap(), ProcessState::Alive);
    files.guard = FileStatus::Missing;
    files.cleanup = FileStatus::Missing;
    assert_eq!(files.state().unwrap(), ProcessState::DoesNotExist);
}

#[test]
fn process_state_cleaner_cannot_be_acquired_from_living_process() {
    let files = Files { guard: FileStatus::Locked, cleanup: FileStatus::Unlocked };
    assert_eq!(files.cleaner().err().unwrap(), ProcessCleanerCreateError::ProcessIsStillAlive);
}

#[test]
fn process_state_cleaner_cannot_be_acquired_twice() {
    let mut files = Files { guard: FileStatus::Unlocked, cleanup: FileStatus::Unlocked };
    assert_eq!(files.cleaner(), Ok(()));
    // the first cleaner holds the lock on the cleanup file
    files.cleanup = FileStatus::Locked;
    assert_eq!(files.cleaner().err().unwrap(), ProcessCleanerCreateError::OwnedByAnotherProcess);
}

#[test]
fn every_observation_has_the_state_of_the_table() {
    use_table(FileStatus::Missing, FileStatus::Missing, Ok(ProcessState::DoesNotExist));
    use_table(FileStatus::OwnerWriteOnly, FileStatus::Missing, Ok(ProcessState::Starting));
    use_table(FileStatus::Locked, FileStatus::Unlocked, Ok(ProcessState::Alive));
    use_table(FileStatus::Unlocked, FileStatus::Unlocked, Ok(ProcessState::Dead));
    use_table(FileStatus::Missing, FileStatus::Unlocked, Err(ProcessMonitorStateError::CorruptedState));
    assert!(FileStatus::Unlocked.is_there());
    assert!(!FileStatus::Missing.is_there());
}

fn use_table(guard: FileStatus, cleanup: FileStatus, expected: Result<ProcessState, ProcessMonitorStateError>) {
    assert_eq!(state(guard, cleanup), expected);
    let cleaner = acquire_cleaner(guard, cleanup);
    assert_eq!(cleaner.is_ok(), expected == Ok(ProcessState::Dead));
}
