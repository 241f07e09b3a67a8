use turbopack_node::evaluate::{evaluate, AfterOutput, JavaScriptEvaluation};
use turbopack_node::message::{
    EvalJavaScriptIncomingMessage as Incoming, EvalJavaScriptOutgoingMessage as Outgoing,
};
use turbopack_node::stream::{JavaScriptStream, StreamPoll};
use turbopack_node::value::JavaScriptValue;

fn value(s: &str) -> Incoming<u8> {
    Incoming::Value { data: s.to_string() }
}

fn end(s: Option<&str>) -> Incoming<u8> {
    Incoming::End { data: s.map(|s| s.to_string()) }
}

fn single(evaluation: JavaScriptEvaluation) -> JavaScriptValue {
    match evaluation {
        JavaScriptEvaluation::Single(value) => value,
        JavaScriptEvaluation::Stream(_) => panic!("stream"),
    }
}

#[test]
fn arguments_are_sent() {
    let (_, Outgoing::Evaluate { args }) = evaluate(vec!["a", "b"]);
    assert_eq!(args, vec!["a", "b"]);
}

#[test]
fn end_gives_a_single_value() {
    let (evaluation, _) = evaluate(vec![1]);
    let (result, after) = evaluation.first_output(end(Some("x")));
    assert_eq!(single(result), JavaScriptValue::Value("x".to_string()));
    assert_eq!(after, AfterOutput::Stop);
    let (result, after) = evaluation.first_output(end(None));
    assert_eq!(single(result), JavaScriptValue::Empty);
    assert_eq!(after, AfterOutput::Stop);
}

#[test]
fn one_off_process_is_killed_at_the_end() {
    let (evaluation, _) = evaluate(Vec::<u8>::new());
    assert_eq!(evaluation.first_output(end(None)).1, AfterOutput::WaitOrKill);
    assert_eq!(evaluation.first_output(Incoming::Error(7u8)).1, AfterOutput::Stop);
    let mut stream = JavaScriptStream::new(vec![]);
    assert_eq!(evaluation.streamed_output(&mut stream, value("a")), AfterOutput::Receive);
    assert_eq!(evaluation.streamed_output(&mut stream, end(None)), AfterOutput::WaitOrKill);
    let mut stream = JavaScriptStream::new(vec![]);
    assert_eq!(
        evaluation.streamed_output(&mut stream, Incoming::Error(7u8)),
        AfterOutput::WaitOrKill
    );
}

#[test]
fn error_gives_a_single_error() {
    let (evaluation, _) = evaluate(vec![1]);
    let (result, after) = evaluation.first_output(Incoming::Error(7u8));
    assert_eq!(single(result), JavaScriptValue::Error);
    assert_eq!(after, AfterOutput::Stop);
}

#[test]
fn value_opens_a_stream() {
    let (evaluation, _) = evaluate(vec![1]);
    let (result, after) = evaluation.first_output(value("a"));
    assert_eq!(after, AfterOutput::Receive);
    let mut stream = match result {
        JavaScriptEvaluation::Stream(stream) => stream,
        JavaScriptEvaluation::Single(_) => panic!("single"),
    };
    assert!(stream == JavaScriptStream::new(vec![JavaScriptValue::Value("a".to_string())]));
    assert_eq!(evaluation.streamed_output(&mut stream, value("b")), AfterOutput::Receive);
    assert_eq!(evaluation.streamed_output(&mut stream, end(Some("c"))), AfterOutput::Stop);
    let texts = stream.serialize().unwrap();
    assert_eq!(
        texts,
        vec![
            JavaScriptValue::Value("a".to_string()),
            JavaScriptValue::Value("b".to_string()),
            JavaScriptValue::Value("c".to_string()),
        ]
    );
}

#[test]
fn streamed_outputs_change_what_the_stream_holds() {
    let (evaluation, _) = evaluate(vec![1]);
    let mut stream = JavaScriptStream::new(vec![]);
    assert_eq!(evaluation.streamed_output(&mut stream, value("a")), AfterOutput::Receive);
    let polled = JavaScriptStream::into_stream(());
    assert!(matches!(polled.poll_next(&stream), StreamPoll::Ready(Some(Ok(text))) if text == "a"));
    assert_eq!(evaluation.streamed_output(&mut stream, Incoming::Error(1u8)), AfterOutput::Stop);
    assert_eq!(
        stream.serialize().unwrap(),
        vec![JavaScriptValue::Value("a".to_string()), JavaScriptValue::Error]
    );
}

#[test]
fn evaluations_are_compared() {
    let text = || JavaScriptValue::Value("a".to_string());
    let single = JavaScriptEvaluation::Single(text());
    let streamed = JavaScriptEvaluation::Stream(JavaScriptStream::new(vec![]));
    assert!(single == JavaScriptEvaluation::Single(text()));
    assert!(streamed == JavaScriptEvaluation::Stream(JavaScriptStream::new(vec![])));
    assert!(single != streamed);
    assert!(single != JavaScriptEvaluation::Single(JavaScriptValue::Empty));
    assert!(streamed != JavaScriptEvaluation::Stream(JavaScriptStream::new(vec![text()])));
}
