use fanout_hub::event::Event;
use fanout_hub::hub::Hub;

fn chat(from: &str, body: &str) -> Event {
    Event::ChatMessage { from: from.to_string(), body: body.to_string(), timestamp: 0 }
}

#[test]
fn empty_replay_then_message_frame() {
    let mut hub = Hub::new(10, 8);
    let alice = hub.subscribe("alice".to_string());
    let connected = hub.next_frame(alice).expect("replay frame");
    assert_eq!(connected.as_str(), "event: connected\n\n");
    hub.publish(chat("bob", "hi"));
    let frame = hub.next_frame(alice).expect("live frame");
    assert_eq!(frame.as_str(), "event: message\ndata: bob: hi\n\n");
    assert!(hub.next_frame(alice).is_none());
}

#[test]
fn stream_yields_publishes_in_order_exactly_once() {
    let mut hub = Hub::new(10, 16);
    let alice = hub.subscribe("alice".to_string());
    let _ = hub.next_frame(alice).expect("replay frame");
    hub.publish(chat("bob", "one"));
    hub.publish(chat("bob", "two"));
    hub.publish(chat("bob", "three"));
    let first = hub.next_frame(alice).expect("first");
    let second = hub.next_frame(alice).expect("second");
    let third = hub.next_frame(alice).expect("third");
    assert_eq!(first.as_str(), "event: message\ndata: bob: one\n\n");
    assert_eq!(second.as_str(), "event: message\ndata: bob: two\n\n");
    assert_eq!(third.as_str(), "event: message\ndata: bob: three\n\n");
    assert!(hub.next_frame(alice).is_none());
}

#[test]
fn replay_keeps_most_recent_capacity_events() {
    let mut hub = Hub::new(2, 8);
    hub.publish(chat("a", "A"));
    hub.publish(chat("b", "B"));
    hub.publish(chat("c", "C"));
    let joiner = hub.subscribe("joiner".to_string());
    let replay = hub.next_frame(joiner).expect("replay frame");
    assert_eq!(replay.as_str(), "event: connected\ndata: b: B\ndata: c: C\n\n");
}

#[test]
fn stalled_subscriber_is_dropped_and_publishes_go_on() {
    let mut hub = Hub::new(10, 2);
    let slow = hub.subscribe("slow".to_string());
    hub.publish(chat("bob", "first"));
    assert!(hub.is_subscribed(slow));
    hub.publish(chat("bob", "second"));
    assert!(!hub.is_subscribed(slow));
    assert_eq!(hub.subscriber_count(), 0);
    hub.publish(chat("bob", "third"));
    assert!(hub.next_frame(slow).is_none());
}

#[test]
fn stalled_subscriber_does_not_stall_others() {
    let mut hub = Hub::new(10, 2);
    let slow = hub.subscribe("slow".to_string());
    let fast = hub.subscribe("fast".to_string());
    let _ = hub.next_frame(fast).expect("fast replay");
    hub.publish(chat("bob", "first"));
    let _ = hub.next_frame(fast).expect("fast first");
    hub.publish(chat("bob", "second"));
    assert!(!hub.is_subscribed(slow));
    assert!(hub.is_subscribed(fast));
    let frame = hub.next_frame(fast).expect("fast second");
    assert_eq!(frame.as_str(), "event: message\ndata: bob: second\n\n");
}

#[test]
fn unsubscribe_is_idempotent() {
    let mut hub = Hub::new(10, 8);
    let alice = hub.subscribe("alice".to_string());
    assert_eq!(hub.subscriber_count(), 1);
    hub.unsubscribe(alice);
    assert_eq!(hub.subscriber_count(), 0);
    hub.unsubscribe(alice);
    assert_eq!(hub.subscriber_count(), 0);
    hub.unsubscribe(12345);
    assert_eq!(hub.subscriber_count(), 0);
    assert!(hub.next_frame(alice).is_none());
}

#[test]
fn unsubscribed_subscriber_receives_no_further_frames() {
    let mut hub = Hub::new(10, 8);
    let alice = hub.subscribe("alice".to_string());
    let bob = hub.subscribe("bob".to_string());
    hub.unsubscribe(alice);
    hub.publish(chat("carol", "hello"));
    assert!(hub.next_frame(alice).is_none());
    let _ = hub.next_frame(bob).expect("bob replay");
    let frame = hub.next_frame(bob).expect("bob live frame");
    assert_eq!(frame.as_str(), "event: message\ndata: carol: hello\n\n");
}

#[test]
fn interleaved_operations_keep_registry_consistent() {
    let mut hub = Hub::new(5, 16);
    let a = hub.subscribe("a".to_string());
    hub.publish(chat("x", "1"));
    let b = hub.subscribe("b".to_string());
    hub.publish(chat("x", "2"));
    hub.unsubscribe(a);
    let c = hub.subscribe("c".to_string());
    hub.publish(chat("x", "3"));

    assert_ne!(a, b);
    assert_ne!(b, c);
    assert_ne!(a, c);
    assert_eq!(hub.subscriber_count(), 2);

    // a left before the third publish and receives nothing further.
    assert!(hub.next_frame(a).is_none());

    // b joined after the first publish: its replay holds exactly that
    // event, and the later publishes arrive in order, once each.
    assert_eq!(hub.next_frame(b).unwrap().as_str(), "event: connected\ndata: x: 1\n\n");
    assert_eq!(hub.next_frame(b).unwrap().as_str(), "event: message\ndata: x: 2\n\n");
    assert_eq!(hub.next_frame(b).unwrap().as_str(), "event: message\ndata: x: 3\n\n");
    assert!(hub.next_frame(b).is_none());

    // c joined after the second publish.
    assert_eq!(
        hub.next_frame(c).unwrap().as_str(),
        "event: connected\ndata: x: 1\ndata: x: 2\n\n",
    );
    assert_eq!(hub.next_frame(c).unwrap().as_str(), "event: message\ndata: x: 3\n\n");
    assert!(hub.next_frame(c).is_none());
}

#[test]
fn duplicate_nicknames_coexist_under_distinct_ids() {
    let mut hub = Hub::new(10, 8);
    let first = hub.subscribe("alice".to_string());
    let second = hub.subscribe("alice".to_string());
    assert_ne!(first, second);
    assert_eq!(hub.subscriber_count(), 2);
    hub.unsubscribe(first);
    assert!(!hub.is_subscribed(first));
    assert!(hub.is_subscribed(second));
}
