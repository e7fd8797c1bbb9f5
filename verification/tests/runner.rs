use nodejs_waiter::{
    ControlMsg, Event, MainBackgroundTask, Notification, Observed, TaskError, POLL_TIMEOUT_MS,
};

fn told(notes: Vec<Notification<u8>>) -> Vec<(u64, u8, ControlMsg)> {
    let mut all: Vec<(u64, u8, ControlMsg)> =
        notes.into_iter().map(|n| (n.id, n.tx, n.msg)).collect();
    all.sort_by_key(|n| n.0);
    all
}

/// A running task in which the invocations 1 and 2 are tracked for the
/// consumers 10 and 20, each with its return pending.
fn busy_task() -> MainBackgroundTask<u8> {
    let mut task = MainBackgroundTask::new();
    assert!(task.register(10).is_ok());
    assert!(task.step(Observed::Signal(Event::InvocationStarted { id: 1 })).is_empty());
    assert!(task.register(20).is_ok());
    assert!(task.step(Observed::Signal(Event::InvocationStarted { id: 2 })).is_empty());
    task
}

#[test]
fn poll_timeout_is_a_quarter_of_a_second() {
    assert_eq!(POLL_TIMEOUT_MS, 250);
}

#[test]
fn new_task_runs_and_tracks_nothing() {
    let task: MainBackgroundTask<u8> = MainBackgroundTask::new();
    assert_eq!(task.exit(), None);
    assert_eq!(task.waiter().len(), 0);
}

#[test]
fn signal_is_handed_to_the_tracker() {
    let mut task = busy_task();
    assert_eq!(task.waiter().len(), 2);
    assert_eq!(
        told(task.step(Observed::Signal(Event::InvocationReturned { id: 1 }))),
        vec![(1, 10, ControlMsg::Completed)]
    );
    assert_eq!(task.exit(), None);
    assert_eq!(task.waiter().len(), 1);
}

#[test]
fn timeout_changes_nothing() {
    let mut task = busy_task();
    assert!(task.step(Observed::TimedOut).is_empty());
    assert!(task.step(Observed::TimedOut).is_empty());
    assert_eq!(task.exit(), None);
    assert_eq!(task.waiter().len(), 2);
    assert_eq!(task.waiter().current(), Some(2));
}

#[test]
fn shutdown_request_releases_every_consumer_and_ends_the_task() {
    let mut task = busy_task();
    assert_eq!(
        told(task.step(Observed::ShutdownRequested)),
        vec![(1, 10, ControlMsg::ForcedCompletion), (2, 20, ControlMsg::ForcedCompletion)]
    );
    assert_eq!(task.exit(), Some(Ok(())));
    assert_eq!(task.waiter().len(), 0);
}

#[test]
fn closed_source_releases_every_consumer_and_fails_the_task() {
    let mut task = busy_task();
    assert_eq!(
        told(task.step(Observed::SourceClosed)),
        vec![(1, 10, ControlMsg::ForcedCompletion), (2, 20, ControlMsg::ForcedCompletion)]
    );
    assert_eq!(task.exit(), Some(Err(TaskError::SourceClosed)));
    assert_eq!(task.waiter().len(), 0);
}

#[test]
fn ended_task_stays_as_it_is() {
    let mut task = busy_task();
    assert_eq!(task.step(Observed::SourceClosed).len(), 2);
    for seen in [
        Observed::ShutdownRequested,
        Observed::SourceClosed,
        Observed::TimedOut,
        Observed::Signal(Event::InvocationStarted { id: 3 }),
        Observed::Signal(Event::InvocationReturned { id: 1 }),
    ] {
        assert!(task.step(seen).is_empty(), "{:?}", seen);
        assert_eq!(task.exit(), Some(Err(TaskError::SourceClosed)));
        assert_eq!(task.waiter().len(), 0);
    }
}

#[test]
fn ended_task_takes_no_handoff() {
    let mut task: MainBackgroundTask<u8> = MainBackgroundTask::new();
    let start = Observed::Signal(Event::InvocationStarted { id: 1 });
    assert!(task.wants_handoff(&start));
    assert!(task.step(Observed::ShutdownRequested).is_empty());
    assert_eq!(task.exit(), Some(Ok(())));
    assert!(!task.wants_handoff(&start));
    assert_eq!(task.register(10), Err(10));
}

#[test]
fn running_task_wants_a_handoff_before_a_start_only() {
    let mut task: MainBackgroundTask<u8> = MainBackgroundTask::new();
    assert!(task.wants_handoff(&Observed::Signal(Event::InvocationStarted { id: 1 })));
    assert!(!task.wants_handoff(&Observed::Signal(Event::InvocationReturned { id: 1 })));
    assert!(!task.wants_handoff(&Observed::TimedOut));
    assert!(!task.wants_handoff(&Observed::ShutdownRequested));
    assert!(!task.wants_handoff(&Observed::SourceClosed));
    assert_eq!(task.register(10), Ok(()));
    assert!(!task.wants_handoff(&Observed::Signal(Event::InvocationStarted { id: 1 })));
    assert_eq!(task.register(11), Err(11));
}
