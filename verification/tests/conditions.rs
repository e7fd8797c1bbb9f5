use nodejs_waiter::{CallFxChecker, Condition, ControlMsg, Event, PeerMessageKind, WaitError};

fn every_event_about(n: u64) -> Vec<Event> {
    vec![
        Event::InvocationStarted { id: n },
        Event::InvocationReturned { id: n },
        Event::RecordWritten { record: n },
        Event::RecordDurable { record: n },
        Event::PeerMessageSent { msg_id: n, kind: PeerMessageKind::RoundTrip },
        Event::PeerMessageSent { msg_id: n, kind: PeerMessageKind::OneWay },
        Event::PeerMessageResolved { msg_id: n },
        Event::PeerMessageTimedOut { msg_id: n },
        Event::Other,
    ]
}

#[test]
fn await_return_is_met_by_the_return_of_its_invocation_only() {
    let condition = Condition::AwaitReturn { id: 4 };
    for event in every_event_about(4) {
        let expected = event == Event::InvocationReturned { id: 4 };
        assert_eq!(condition.is_satisfied_by(&event), expected, "{:?}", event);
    }
    for event in every_event_about(5) {
        assert!(!condition.is_satisfied_by(&event), "{:?}", event);
    }
}

#[test]
fn await_durable_is_met_by_the_acknowledgment_of_its_record_only() {
    let condition = Condition::AwaitDurable { record: 4 };
    for event in every_event_about(4) {
        let expected = event == Event::RecordDurable { record: 4 };
        assert_eq!(condition.is_satisfied_by(&event), expected, "{:?}", event);
    }
    for event in every_event_about(5) {
        assert!(!condition.is_satisfied_by(&event), "{:?}", event);
    }
}

#[test]
fn await_peer_outcome_is_met_by_resolution_and_by_timeout() {
    let condition = Condition::AwaitPeerOutcome { msg_id: 4 };
    for event in every_event_about(4) {
        let expected = event == Event::PeerMessageResolved { msg_id: 4 }
            || event == Event::PeerMessageTimedOut { msg_id: 4 };
        assert_eq!(condition.is_satisfied_by(&event), expected, "{:?}", event);
    }
    for event in every_event_about(5) {
        assert!(!condition.is_satisfied_by(&event), "{:?}", event);
    }
}

#[test]
fn new_checker_has_no_condition_and_keeps_its_handle() {
    let checker = CallFxChecker::new("consumer");
    assert!(checker.conditions().is_empty());
    assert_eq!(*checker.sender(), "consumer");
    assert_eq!(checker.into_sender(), "consumer");
}

#[test]
fn add_appends_in_order_without_deduplication() {
    let mut checker = CallFxChecker::new(0u8);
    checker.add(Condition::AwaitDurable { record: 9 });
    checker.add(Condition::AwaitReturn { id: 1 });
    checker.add(Condition::AwaitDurable { record: 9 });
    assert_eq!(
        checker.conditions(),
        &vec![
            Condition::AwaitDurable { record: 9 },
            Condition::AwaitReturn { id: 1 },
            Condition::AwaitDurable { record: 9 },
        ]
    );
}

#[test]
fn run_checks_drops_every_met_condition_and_keeps_the_order_of_the_rest() {
    let mut checker = CallFxChecker::new(0u8);
    checker.add(Condition::AwaitReturn { id: 1 });
    checker.add(Condition::AwaitDurable { record: 9 });
    checker.add(Condition::AwaitPeerOutcome { msg_id: 3 });
    checker.add(Condition::AwaitDurable { record: 9 });
    checker.add(Condition::AwaitDurable { record: 8 });

    assert_eq!(checker.run_checks(&Event::RecordDurable { record: 9 }), None);
    assert_eq!(
        checker.conditions(),
        &vec![
            Condition::AwaitReturn { id: 1 },
            Condition::AwaitPeerOutcome { msg_id: 3 },
            Condition::AwaitDurable { record: 8 },
        ]
    );
    assert_eq!(checker.run_checks(&Event::RecordDurable { record: 9 }), None);
    assert_eq!(checker.conditions().len(), 3);
}

#[test]
fn run_checks_fires_once_when_the_last_condition_is_met() {
    let mut checker = CallFxChecker::new(0u8);
    checker.add(Condition::AwaitReturn { id: 1 });
    checker.add(Condition::AwaitDurable { record: 2 });

    assert_eq!(checker.run_checks(&Event::InvocationReturned { id: 2 }), None);
    assert_eq!(checker.run_checks(&Event::InvocationReturned { id: 1 }), None);
    assert_eq!(checker.run_checks(&Event::RecordWritten { record: 2 }), None);
    assert_eq!(
        checker.run_checks(&Event::RecordDurable { record: 2 }),
        Some(ControlMsg::Completed)
    );
    assert!(checker.conditions().is_empty());
    assert_eq!(checker.run_checks(&Event::RecordDurable { record: 2 }), None);
    assert_eq!(checker.run_checks(&Event::InvocationReturned { id: 1 }), None);
}

#[test]
fn one_event_can_meet_the_last_two_conditions_at_once() {
    let mut checker = CallFxChecker::new(0u8);
    checker.add(Condition::AwaitDurable { record: 2 });
    checker.add(Condition::AwaitDurable { record: 2 });
    assert_eq!(
        checker.run_checks(&Event::RecordDurable { record: 2 }),
        Some(ControlMsg::Completed)
    );
    assert!(checker.conditions().is_empty());
}

#[test]
fn run_checks_on_a_checker_without_conditions_fires_nothing() {
    let mut checker = CallFxChecker::new(0u8);
    for event in every_event_about(1) {
        assert_eq!(checker.run_checks(&event), None, "{:?}", event);
    }
}

#[test]
fn shutdown_clears_the_checker_and_forces_completion() {
    let mut checker = CallFxChecker::new(7u8);
    checker.add(Condition::AwaitReturn { id: 1 });
    checker.add(Condition::AwaitDurable { record: 2 });
    assert_eq!(checker.shutdown(), ControlMsg::ForcedCompletion);
    assert!(checker.conditions().is_empty());
    assert_eq!(*checker.sender(), 7);

    let mut empty = CallFxChecker::new(7u8);
    assert_eq!(empty.shutdown(), ControlMsg::ForcedCompletion);
}

#[test]
fn settle_passes_either_message_on_and_fails_without_one() {
    assert_eq!(ControlMsg::settle(Some(ControlMsg::Completed)), Ok(ControlMsg::Completed));
    assert_eq!(
        ControlMsg::settle(Some(ControlMsg::ForcedCompletion)),
        Ok(ControlMsg::ForcedCompletion)
    );
    assert_eq!(ControlMsg::settle(None), Err(WaitError::TrackerGone));
}
