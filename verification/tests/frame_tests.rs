use fanout_hub::event::Event;
use fanout_hub::frame::encode_connected;
use fanout_hub::frame::encode_event;
use fanout_hub::hub::Hub;

#[test]
fn message_frame_wire_form() {
    let e = Event::ChatMessage {
        from: "bob".to_string(),
        body: "hi".to_string(),
        timestamp: 7,
    };
    assert_eq!(encode_event(&e).as_str(), "event: message\ndata: bob: hi\n\n");
}

#[test]
fn multiline_body_splits_into_data_lines() {
    let e = Event::ChatMessage {
        from: "bob".to_string(),
        body: "hi\nthere".to_string(),
        timestamp: 0,
    };
    assert_eq!(encode_event(&e).as_str(), "event: message\ndata: bob: hi\ndata: there\n\n");
}

#[test]
fn joined_frame_wire_form() {
    let e = Event::Joined { nickname: "zoe".to_string(), timestamp: 0 };
    assert_eq!(encode_event(&e).as_str(), "event: joined\ndata: zoe joined\n\n");
}

#[test]
fn paste_frame_carries_structured_reference() {
    let e = Event::PasteCreated {
        author: "ann".to_string(),
        title: "notes.txt".to_string(),
        reference_id: 42,
        timestamp: 0,
    };
    assert_eq!(
        encode_event(&e).as_str(),
        "event: paste\ndata: ann\ndata: notes.txt\ndata: 42\n\n",
    );
}

#[test]
fn paste_reference_ids_render_in_decimal() {
    let zero = Event::PasteCreated {
        author: "a".to_string(),
        title: "t".to_string(),
        reference_id: 0,
        timestamp: 0,
    };
    assert_eq!(encode_event(&zero).as_str(), "event: paste\ndata: a\ndata: t\ndata: 0\n\n");
    let big = Event::PasteCreated {
        author: "a".to_string(),
        title: "t".to_string(),
        reference_id: 9007199254740993,
        timestamp: 0,
    };
    assert_eq!(
        encode_event(&big).as_str(),
        "event: paste\ndata: a\ndata: t\ndata: 9007199254740993\n\n",
    );
}

#[test]
fn connected_frame_replays_each_event_kind() {
    let events = vec![
        Event::Joined { nickname: "zoe".to_string(), timestamp: 0 },
        Event::ChatMessage { from: "bob".to_string(), body: "hi".to_string(), timestamp: 1 },
        Event::PasteCreated {
            author: "ann".to_string(),
            title: "notes.txt".to_string(),
            reference_id: 5,
            timestamp: 2,
        },
    ];
    assert_eq!(
        encode_connected(&events).as_str(),
        "event: connected\ndata: zoe joined\ndata: bob: hi\ndata: paste by ann: notes.txt\n\n",
    );
}

#[test]
fn connected_frame_of_empty_history_has_no_data_lines() {
    let events: Vec<Event> = Vec::new();
    assert_eq!(encode_connected(&events).as_str(), "event: connected\n\n");
}

#[test]
fn snapshot_copies_history_in_order() {
    let mut hub = Hub::new(3, 8);
    hub.publish(Event::ChatMessage { from: "a".to_string(), body: "A".to_string(), timestamp: 0 });
    hub.publish(Event::ChatMessage { from: "b".to_string(), body: "B".to_string(), timestamp: 1 });
    let snap = hub.history.snapshot();
    assert_eq!(
        encode_connected(&snap).as_str(),
        "event: connected\ndata: a: A\ndata: b: B\n\n",
    );
}

#[test]
fn replay_splits_multiline_history_entries() {
    let mut hub = Hub::new(4, 8);
    hub.publish(Event::ChatMessage {
        from: "bob".to_string(),
        body: "hi\nthere".to_string(),
        timestamp: 0,
    });
    let joiner = hub.subscribe("joiner".to_string());
    let replay = hub.next_frame(joiner).expect("replay frame");
    assert_eq!(replay.as_str(), "event: connected\ndata: bob: hi\ndata: there\n\n");
}
