use replibyte::pipeline::{DownloadOptions, RestoreStage, CHANNEL_CAPACITY};
use replibyte::{FullRestoreTask, Message, RestoreAction, RestoreEvent, RestoreMachine};

fn report(m: &mut RestoreMachine<String>, ev: RestoreEvent<String>) -> RestoreAction<String> {
    assert!(m.accepts_event(&ev));
    m.on_event(ev)
}

#[test]
fn three_chunks_reach_the_destination_in_order() {
    let mut m: RestoreMachine<String> = RestoreMachine::new();
    assert!(matches!(m.first_action(), RestoreAction::InitializeDestination));
    assert!(matches!(
        report(&mut m, RestoreEvent::DestinationInitialized(Ok(()))),
        RestoreAction::InitializeBridge
    ));
    assert!(matches!(
        report(&mut m, RestoreEvent::BridgeInitialized(Ok(()))),
        RestoreAction::StartDownload
    ));
    assert!(matches!(report(&mut m, RestoreEvent::DownloadStarted), RestoreAction::Receive));
    let chunks: Vec<Vec<u8>> = vec![vec![1, 2], vec![3], vec![4, 5, 6]];
    let mut inserted: Vec<Vec<u8>> = Vec::new();
    for c in &chunks {
        match report(&mut m, RestoreEvent::Received(Message::Data(c.clone()))) {
            RestoreAction::Insert(d) => inserted.push(d),
            other => panic!("unexpected {:?}", other),
        }
        assert!(!m.accepts_event(&RestoreEvent::Received(Message::EOF)));
        assert!(matches!(report(&mut m, RestoreEvent::Inserted(Ok(()))), RestoreAction::Receive));
    }
    assert!(matches!(report(&mut m, RestoreEvent::Received(Message::EOF)), RestoreAction::Join));
    assert!(matches!(report(&mut m, RestoreEvent::Joined), RestoreAction::Finish(Ok(()))));
    assert!(m.is_done());
    assert_eq!(inserted, chunks);
}

#[test]
fn destination_failure_ends_before_the_bridge() {
    let mut m: RestoreMachine<String> = RestoreMachine::new();
    match report(&mut m, RestoreEvent::DestinationInitialized(Err("down".to_string()))) {
        RestoreAction::Finish(Err(e)) => assert_eq!(e, "down"),
        other => panic!("unexpected {:?}", other),
    }
    assert!(m.is_done());
    assert!(!m.accepts_event(&RestoreEvent::BridgeInitialized(Ok(()))));
    assert!(!m.accepts_event(&RestoreEvent::DownloadStarted));
}

#[test]
fn bridge_failure_ends_the_task() {
    let mut m: RestoreMachine<String> = RestoreMachine::new();
    report(&mut m, RestoreEvent::DestinationInitialized(Ok(())));
    match report(&mut m, RestoreEvent::BridgeInitialized(Err("no bucket".to_string()))) {
        RestoreAction::Finish(Err(e)) => assert_eq!(e, "no bucket"),
        other => panic!("unexpected {:?}", other),
    }
    assert!(m.is_done());
}

#[test]
fn insert_failure_joins_then_fails() {
    let mut m: RestoreMachine<String> = RestoreMachine::new();
    report(&mut m, RestoreEvent::DestinationInitialized(Ok(())));
    report(&mut m, RestoreEvent::BridgeInitialized(Ok(())));
    report(&mut m, RestoreEvent::DownloadStarted);
    report(&mut m, RestoreEvent::Received(Message::Data(vec![9])));
    assert!(matches!(
        report(&mut m, RestoreEvent::Inserted(Err("full".to_string()))),
        RestoreAction::Join
    ));
    assert!(!m.is_done());
    match report(&mut m, RestoreEvent::Joined) {
        RestoreAction::Finish(Err(e)) => assert_eq!(e, "full"),
        other => panic!("unexpected {:?}", other),
    }
}

#[test]
fn empty_download_finishes_without_inserts() {
    let mut m: RestoreMachine<String> = RestoreMachine::new();
    report(&mut m, RestoreEvent::DestinationInitialized(Ok(())));
    report(&mut m, RestoreEvent::BridgeInitialized(Ok(())));
    report(&mut m, RestoreEvent::DownloadStarted);
    assert!(matches!(report(&mut m, RestoreEvent::Received(Message::EOF)), RestoreAction::Join));
    assert!(matches!(report(&mut m, RestoreEvent::Joined), RestoreAction::Finish(Ok(()))));
}

#[test]
fn channel_holds_one_message() {
    assert_eq!(CHANNEL_CAPACITY, 1);
}

#[test]
fn task_keeps_its_parts() {
    let task = FullRestoreTask::new(
        "destination".to_string(),
        7u32,
        DownloadOptions::Dump { name: "dump-1".to_string() },
    );
    assert!(matches!(task.download_options(), DownloadOptions::Dump { name } if name == "dump-1"));
    let (d, b, o) = task.into_parts();
    assert_eq!(d, "destination");
    assert_eq!(b, 7);
    assert!(matches!(o, DownloadOptions::Dump { .. }));
    let _ = RestoreStage::<String>::Start;
}
