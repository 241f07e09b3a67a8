use turbopack_node::message::EvalJavaScriptIncomingMessage as Incoming;
use turbopack_node::stream::{JavaScriptStream, JsStreamable, StreamPoll};
use turbopack_node::value::JavaScriptValue;

fn text(s: &str) -> JavaScriptValue {
    JavaScriptValue::from(s.to_string())
}

fn value(s: &str) -> Incoming<u8> {
    Incoming::Value { data: s.to_string() }
}

fn end(s: Option<&str>) -> Incoming<u8> {
    Incoming::End { data: s.map(|s| s.to_string()) }
}

fn poll(stream: &JavaScriptStream) -> StreamPoll {
    let polled = JavaScriptStream::into_stream("handle");
    assert_eq!((polled.inner, polled.index), ("handle", 0));
    assert!(polled.can_poll(stream));
    polled.poll_next(stream)
}

fn is_item(found: StreamPoll, expected: &str) -> bool {
    matches!(found, StreamPoll::Ready(Some(Ok(text))) if text == expected)
}

fn is_failed(found: StreamPoll) -> bool {
    match found {
        StreamPoll::Ready(Some(Err(error))) => error.message() == "error during evaluation",
        _ => false,
    }
}

fn is_finished(found: StreamPoll) -> bool {
    matches!(found, StreamPoll::Ready(None))
}

fn is_pending(found: StreamPoll) -> bool {
    matches!(found, StreamPoll::Pending)
}

#[test]
fn text_becomes_a_value() {
    assert_eq!(text("a"), JavaScriptValue::Value("a".to_string()));
    assert_eq!(JavaScriptValue::from(Some("a".to_string())), text("a"));
    assert_eq!(JavaScriptValue::from(None), JavaScriptValue::Empty);
}

#[test]
fn values_are_compared_by_content() {
    assert!(text("a") == text("a"));
    assert!(text("a") != text("b"));
    assert!(text("") != JavaScriptValue::Empty);
    assert!(JavaScriptValue::Error == JavaScriptValue::Error.clone());
    assert!(JavaScriptValue::Error != JavaScriptValue::Empty);
    assert_eq!(text("a").clone(), text("a"));
}

#[test]
fn poll_finds_values_errors_and_the_end() {
    assert!(is_item(poll(&JavaScriptStream::new(vec![text("a")])), "a"));
    assert!(is_failed(poll(&JavaScriptStream::new(vec![JavaScriptValue::Error]))));
    let mut stream = JavaScriptStream::new(vec![]);
    assert!(is_pending(poll(&stream)));
    assert!(!stream.record(end(None)));
    assert!(is_finished(poll(&stream)));
}

#[test]
fn poll_depends_on_the_position() {
    let at = |index| JsStreamable { inner: (), index };
    let mut stream = JavaScriptStream::new(vec![text("a"), JavaScriptValue::Empty]);
    assert!(stream.record(value("b")));
    assert!(!at(1).can_poll(&stream));
    assert!(is_item(at(2).poll_next(&stream), "b"));
    assert!(is_pending(at(3).poll_next(&stream)));
    assert!(!stream.record(Incoming::Error(1u8)));
    assert!(is_failed(at(3).poll_next(&stream)));
    assert!(is_finished(at(4).poll_next(&stream)));
}

#[test]
fn empty_value_cannot_be_polled() {
    let stream = JavaScriptStream::new(vec![JavaScriptValue::Empty]);
    assert!(!JavaScriptStream::into_stream(()).can_poll(&stream));
}

#[test]
fn values_are_collected_until_the_end() {
    let mut stream = JavaScriptStream::new(vec![text("a")]);
    assert!(stream.record(value("b")));
    assert!(!stream.record(end(Some("c"))));
    assert_eq!(stream.serialize().unwrap(), vec![text("a"), text("b"), text("c")]);
}

#[test]
fn end_without_data_adds_nothing() {
    let mut stream = JavaScriptStream::new(vec![text("a")]);
    assert!(!stream.record(end(None)));
    assert_eq!(stream.serialize().unwrap(), vec![text("a")]);
}

#[test]
fn error_is_the_last_value() {
    let mut stream = JavaScriptStream::new(vec![text("a")]);
    assert!(!stream.record(Incoming::Error(3u8)));
    assert_eq!(stream.serialize().unwrap(), vec![text("a"), JavaScriptValue::Error]);
}

#[test]
fn streams_are_compared_with_done() {
    let mut a = JavaScriptStream::new(vec![text("a")]);
    let b = JavaScriptStream::new(vec![text("a")]);
    assert!(a == b);
    assert!(a != JavaScriptStream::new(vec![text("b")]));
    assert!(a != JavaScriptStream::new(vec![]));
    a.record(end(None));
    assert!(a != b);
}

#[test]
fn unfinished_stream_is_not_serialized() {
    let stream = JavaScriptStream::new(vec![text("a")]);
    match stream.serialize() {
        Ok(_) => panic!("serialized"),
        Err(error) => assert_eq!(error.message(), "cannot serialize unfinished stream"),
    }
}

#[test]
fn finished_stream_is_serialized_and_restored_as_unfinished() {
    let mut stream = JavaScriptStream::new(vec![text("a")]);
    stream.record(end(Some("b")));
    let data = stream.serialize().unwrap();
    assert_eq!(data, vec![text("a"), text("b")]);
    let restored = JavaScriptStream::new(data);
    assert!(restored.serialize().is_err());
    assert!(restored != stream);
    assert!(is_item(poll(&restored), "a"));
}

#[test]
fn poll_stays_at_the_first_value() {
    let mut stream = JavaScriptStream::new(vec![text("0")]);
    let polled = JavaScriptStream::into_stream(());
    for i in 1..50 {
        stream.record(value(&i.to_string()));
        assert!(is_item(polled.poll_next(&stream), "0"));
    }
    stream.record(end(None));
    assert!(is_item(polled.poll_next(&stream), "0"));
    let data = stream.serialize().unwrap();
    assert_eq!(data.len(), 50);
    assert_eq!(data[49], text("49"));
}

#[test]
fn first_value_is_found_once_it_is_there() {
    let mut stream = JavaScriptStream::new(vec![]);
    let polled = JavaScriptStream::into_stream(());
    assert!(is_pending(polled.poll_next(&stream)));
    stream.record(value("a"));
    assert!(is_item(polled.poll_next(&stream), "a"));
}
