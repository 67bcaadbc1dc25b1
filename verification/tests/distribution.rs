use tmsocial::events::Event;
use tmsocial::events::EventManager;
use tmsocial::events::SubmissionStatus;
use tmsocial::events::publish_events;

fn started(submission_id: i64, update_id: i64) -> Event {
    Event { submission_id, update_id, status: SubmissionStatus::Started }
}

#[test]
fn fan_out_delivers_one_copy_per_subscriber() {
    let mut mgr = EventManager::new();
    let (s1, _) = mgr.connect(1);
    let (s2, _) = mgr.connect(1);
    let (s3, _) = mgr.connect(1);
    let (other, _) = mgr.connect(2);
    let deliveries = mgr.publish(1, started(5, 0), 1000);
    // exactly the user's subscribers, in registration order, once each
    assert_eq!(deliveries, vec![s1, s2, s3]);
    assert_ne!(s1, s2);
    assert_ne!(s2, s3);
    assert_ne!(s1, s3);
    assert!(!deliveries.contains(&other));
}

#[test]
fn replay_catches_a_late_subscriber_up() {
    let mut mgr = EventManager::new();
    mgr.publish(1, started(5, 0), 1000);
    mgr.publish(1, started(6, 0), 2000);
    // connecting one second later still replays both events
    mgr.cleanup(3000);
    let (_, replay) = mgr.connect(1);
    assert_eq!(replay.len(), 2);
    assert_eq!(replay[0].submission_id, 5);
    assert_eq!(replay[1].submission_id, 6);
}

#[test]
fn history_expires_after_the_window() {
    let mut mgr = EventManager::new();
    mgr.publish(1, started(5, 0), 1000);
    // still retained exactly at the edge of the window
    mgr.cleanup(1000 + 300000);
    let (_, replay) = mgr.connect(1);
    assert_eq!(replay.len(), 1);
    // gone one second past it
    mgr.cleanup(1000 + 301000);
    let (_, replay) = mgr.connect(1);
    assert_eq!(replay.len(), 0);
}

#[test]
fn disconnect_stops_delivery() {
    let mut mgr = EventManager::new();
    let (s1, _) = mgr.connect(1);
    let (s2, _) = mgr.connect(1);
    assert!(mgr.disconnect(1, s1));
    let deliveries = mgr.publish(1, started(5, 0), 1000);
    assert_eq!(deliveries, vec![s2]);
    // disconnecting a session that is not registered is reported
    assert!(!mgr.disconnect(1, s1));
    assert!(!mgr.disconnect(42, 7));
}

#[test]
fn timelines_are_published_in_order() {
    let mut mgr = EventManager::new();
    let (sid, _) = mgr.connect(9);
    let timeline = vec![
        started(5, 0),
        Event { submission_id: 5, update_id: 1, status: SubmissionStatus::Error { message: String::from("invalid judge message") } },
        Event { submission_id: 5, update_id: 0, status: SubmissionStatus::Done { score: 87500 } },
    ];
    let deliveries = publish_events(&mut mgr, 9, &timeline, 1000);
    assert_eq!(deliveries.len(), 3);
    for (sessions, _) in &deliveries {
        assert_eq!(sessions, &vec![sid]);
    }
    assert!(matches!(deliveries[2].1.status, SubmissionStatus::Done { score: 87500 }));
    // a subscriber connecting afterwards is replayed the same timeline
    let (_, replay) = mgr.connect(9);
    assert_eq!(replay.len(), 3);
    assert!(matches!(replay[0].status, SubmissionStatus::Started));
    assert!(matches!(replay[2].status, SubmissionStatus::Done { score: 87500 }));
}
