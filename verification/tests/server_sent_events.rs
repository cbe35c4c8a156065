use afire::server_sent_events::{stream_head_bytes, Event};

#[test]
fn test_sse_event_format() {
    let event = Event::new("event");
    assert_eq!(event.to_string(), "event: event\ndata: \n\n");

    let event = Event::new("update").id(1).data("Hello");
    assert_eq!(event.to_string(), "id: 1\nevent: update\ndata: Hello\n\n");
}

#[test]
fn event_data_of_several_lines() {
    let event = Event::new("log").id(4294967295).data("one\ntwo").data("\nthree");
    assert_eq!(
        event.to_string(),
        "id: 4294967295\nevent: log\ndata: one\ndata: two\ndata: three\n\n"
    );
}

#[test]
fn event_data_ending_in_a_line_feed() {
    let event = Event::new("e").id(0).data("x\n");
    assert_eq!(event.to_string(), "id: 0\nevent: e\ndata: x\ndata: \n\n");
}

#[test]
fn event_stream_head() {
    assert_eq!(
        stream_head_bytes(),
        b"HTTP/1.1 200 OK\r\nContent-Type: text/event-stream\r\nCache-Control: no-cache\r\n\r\n"
            .to_vec()
    );
}
