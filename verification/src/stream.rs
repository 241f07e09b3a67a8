//! Streams of values, and how they are read.
use crate::message::EvalJavaScriptIncomingMessage;
use crate::value::{values_view, JavaScriptValue, ValueView};
use vstd::pervasive::unreached;
use vstd::prelude::*;
use vstd::std_specs::cmp::PartialEqSpec;

verus! {

/// The mathematical model of what a stream holds.
#[verifier::ext_equal]
pub struct StreamView {
    /// Whether no further value follows.
    pub done: bool,
    /// The values so far, from the first to the last.
    pub values: Seq<ValueView>,
}

/// What a poll finds: an item, the end of the stream, or neither as yet.
#[derive(Debug)]
pub enum StreamPoll {
    Ready(Option<Result<String, EvaluationError>>),
    Pending,
}

/// The mathematical model of a [`StreamPoll`].
pub enum PollView {
    Item(Seq<char>),
    Failed,
    Finished,
    Pending,
}

impl View for StreamPoll {
    type V = PollView;

    open spec fn view(&self) -> PollView {
        match self {
            StreamPoll::Ready(Some(Ok(text))) => PollView::Item(text@),
            StreamPoll::Ready(Some(Err(_))) => PollView::Failed,
            StreamPoll::Ready(None) => PollView::Finished,
            StreamPoll::Pending => PollView::Pending,
        }
    }
}

/// The evaluated code failed.
#[derive(Debug, Clone, Copy)]
pub struct EvaluationError;

impl EvaluationError {
    pub fn message(&self) -> (text: String)
        ensures
            text@ == "error during evaluation"@,
    {
        "error during evaluation".to_string()
    }
}

/// A stream that may still grow was to be serialized.
#[derive(Debug, Clone, Copy)]
pub struct UnfinishedStream;

impl UnfinishedStream {
    pub fn message(&self) -> (text: String)
        ensures
            text@ == "cannot serialize unfinished stream"@,
    {
        "cannot serialize unfinished stream".to_string()
    }
}

impl StreamView {
    /// The value at a position can be handed out, if there is one.
    pub open spec fn pollable(self, index: int) -> bool {
        0 <= index < self.values.len() ==> !(self.values[index] is Empty)
    }

    /// What a poll at a position finds.
    pub open spec fn polled(self, index: int) -> PollView {
        if 0 <= index < self.values.len() {
            match self.values[index] {
                ValueView::Value(text) => PollView::Item(text),
                _ => PollView::Failed,
            }
        } else if self.done {
            PollView::Finished
        } else {
            PollView::Pending
        }
    }

    /// The stream after one more output of the evaluated code.
    pub open spec fn recorded<E>(self, output: EvalJavaScriptIncomingMessage<E>) -> StreamView {
        match output {
            EvalJavaScriptIncomingMessage::Value { data } => StreamView {
                done: self.done,
                values: self.values.push(ValueView::Value(data@)),
            },
            EvalJavaScriptIncomingMessage::End { data } => StreamView {
                done: true,
                values: match data {
                    Some(data) => self.values.push(ValueView::Value(data@)),
                    None => self.values,
                },
            },
            EvalJavaScriptIncomingMessage::Error(_) => StreamView {
                done: true,
                values: self.values.push(ValueView::Error),
            },
            _ => self,
        }
    }
}

/// What a stream holds.
#[derive(Debug)]
pub struct JsStreamInner {
    done: bool,
    data: Vec<JavaScriptValue>,
}

impl View for JsStreamInner {
    type V = StreamView;

    closed spec fn view(&self) -> StreamView {
        StreamView { done: self.done, values: values_view(self.data@) }
    }
}

impl JsStreamInner {
    /// Looks for the value at a position. An empty value is never handed out.
    fn poll(&self, index: usize) -> (found: StreamPoll)
        requires
            self@.pollable(index as int),
        ensures
            found@ == self@.polled(index as int),
            0 <= index < self@.values.len() ==> (match self@.values[index as int] {
                ValueView::Value(text) => found matches StreamPoll::Ready(Some(Ok(t))) && t@ == text,
                _ => found matches StreamPoll::Ready(Some(Err(_))),
            }),
            index >= self@.values.len() && self@.done ==> found matches StreamPoll::Ready(None),
            index >= self@.values.len() && !self@.done ==> found is Pending,
    {
        if index < self.data.len() {
            assert(self@.values[index as int] == self.data@[index as int]@);
            match &self.data[index] {
                JavaScriptValue::Empty => unreached(),
                JavaScriptValue::Value(text) => StreamPoll::Ready(Some(Ok(text.clone()))),
                JavaScriptValue::Error => StreamPoll::Ready(Some(Err(EvaluationError))),
            }
        } else if self.done {
            StreamPoll::Ready(None)
        } else {
            StreamPoll::Pending
        }
    }

    /// Takes in one more output of the evaluated code, and says whether further
    /// ones are to be expected.
    fn record<E>(&mut self, output: EvalJavaScriptIncomingMessage<E>) -> (more: bool)
        requires
            output.is_output_spec(),
        ensures
            final(self)@ == old(self)@.recorded(output),
            more == output is Value,
            match output {
                EvalJavaScriptIncomingMessage::Value { data } => {
                    &&& final(self)@.values == old(self)@.values.push(ValueView::Value(data@))
                    &&& final(self)@.done == old(self)@.done
                },
                EvalJavaScriptIncomingMessage::End { data: Some(data) } => {
                    &&& final(self)@.values == old(self)@.values.push(ValueView::Value(data@))
                    &&& final(self)@.done
                },
                EvalJavaScriptIncomingMessage::End { data: None } => {
                    &&& final(self)@.values == old(self)@.values
                    &&& final(self)@.done
                },
                EvalJavaScriptIncomingMessage::Error(_) => {
                    &&& final(self)@.values == old(self)@.values.push(ValueView::Error)
                    &&& final(self)@.done
                },
                _ => false,
            },
    {
        match output {
            EvalJavaScriptIncomingMessage::End { data } => {
                self.done = true;
                if let Some(data) = data {
                    self.push(JavaScriptValue::from(data));
                }
                false
            },
            EvalJavaScriptIncomingMessage::Error(_) => {
                self.done = true;
                self.push(JavaScriptValue::Error);
                false
            },
            EvalJavaScriptIncomingMessage::Value { data } => {
                self.push(JavaScriptValue::from(data));
                true
            },
            _ => unreached(),
        }
    }

    fn push(&mut self, value: JavaScriptValue)
        ensures
            final(self)@ == (StreamView { done: old(self)@.done, values: old(self)@.values.push(value@) }),
    {
        self.data.push(value);
        assert(self@.values =~= old(self)@.values.push(value@));
    }

    /// A copy of the values.
    fn values(&self) -> (values: Vec<JavaScriptValue>)
        ensures
            values_view(values@) == self@.values,
    {
        let mut copy: Vec<JavaScriptValue> = Vec::new();
        for i in 0..self.data.len()
            invariant
                copy@ == self.data@.take(i as int),
        {
            copy.push(self.data[i].clone());
            assert(copy@ =~= self.data@.take(i + 1));
        }
        assert(copy@ =~= self.data@);
        copy
    }
}

impl PartialEq for JsStreamInner {
    fn eq(&self, other: &Self) -> (same: bool)
        ensures
            same == (self@.done == other@.done && self@.values == other@.values),
    {
        if self.done != other.done || self.data.len() != other.data.len() {
            assert(self@.values.len() == self.data@.len());
            assert(other@.values.len() == other.data@.len());
            return false;
        }
        for i in 0..self.data.len()
            invariant
                self.data@.len() == other.data@.len(),
                forall|j: int| 0 <= j < i ==> #[trigger] self.data@[j]@ == other.data@[j]@,
        {
            if self.data[i] != other.data[i] {
                assert(self@.values[i as int] == self.data@[i as int]@);
                assert(other@.values[i as int] == other.data@[i as int]@);
                return false;
            }
        }
        assert(self@ =~= other@);
        true
    }
}

impl vstd::std_specs::cmp::PartialEqSpecImpl for JsStreamInner {
    open spec fn obeys_eq_spec() -> bool {
        true
    }

    open spec fn eq_spec(&self, other: &Self) -> bool {
        self@ == other@
    }
}

impl Eq for JsStreamInner {}

/// A stream of values. To fill it from one place while others read it, share it
/// behind a lock.
#[derive(Debug)]
pub struct JavaScriptStream(JsStreamInner);

impl View for JavaScriptStream {
    type V = StreamView;

    closed spec fn view(&self) -> StreamView {
        self.0@
    }
}

impl JavaScriptStream {
    /// A stream that holds some values and may still grow. A stream that is
    /// restored from serialized values counts as unfinished again.
    pub fn new(data: Vec<JavaScriptValue>) -> (stream: Self)
        ensures
            stream@ == (StreamView { done: false, values: values_view(data@) }),
            stream@.values.len() == data@.len(),
            forall|i: int| 0 <= i < data@.len() ==> #[trigger] stream@.values[i] == data@[i]@,
    {
        JavaScriptStream(JsStreamInner { done: false, data })
    }

    /// A reader, at the first value, of the stream that a handle leads to.
    pub fn into_stream<S>(handle: S) -> (streamable: JsStreamable<S>)
        ensures
            streamable.inner == handle,
            streamable.index == 0,
    {
        JsStreamable { inner: handle, index: 0 }
    }

    /// Takes in one more output of the evaluated code, and says whether further
    /// ones are to be expected.
    pub fn record<E>(&mut self, output: EvalJavaScriptIncomingMessage<E>) -> (more: bool)
        requires
            output.is_output_spec(),
        ensures
            final(self)@ == old(self)@.recorded(output),
            more == output is Value,
            match output {
                EvalJavaScriptIncomingMessage::Value { data } => {
                    &&& final(self)@.values == old(self)@.values.push(ValueView::Value(data@))
                    &&& final(self)@.done == old(self)@.done
                },
                EvalJavaScriptIncomingMessage::End { data: Some(data) } => {
                    &&& final(self)@.values == old(self)@.values.push(ValueView::Value(data@))
                    &&& final(self)@.done
                },
                EvalJavaScriptIncomingMessage::End { data: None } => {
                    &&& final(self)@.values == old(self)@.values
                    &&& final(self)@.done
                },
                EvalJavaScriptIncomingMessage::Error(_) => {
                    &&& final(self)@.values == old(self)@.values.push(ValueView::Error)
                    &&& final(self)@.done
                },
                _ => false,
            },
    {
        self.0.record(output)
    }

    /// The values to serialize: all of them, once no further one follows.
    pub fn serialize(&self) -> (values: Result<Vec<JavaScriptValue>, UnfinishedStream>)
        ensures
            values is Ok <==> self@.done,
            values matches Ok(data) ==> values_view(data@) == self@.values,
            values matches Ok(data) ==> data@.len() == self@.values.len() && forall|i: int|
                0 <= i < data@.len() ==> (#[trigger] data@[i])@ == self@.values[i],
    {
        if !self.0.done {
            return Err(UnfinishedStream);
        }
        Ok(self.0.values())
    }
}

impl PartialEq for JavaScriptStream {
    fn eq(&self, other: &Self) -> (same: bool)
        ensures
            same == (self@.done == other@.done && self@.values == other@.values),
    {
        self.0 == other.0
    }
}

impl vstd::std_specs::cmp::PartialEqSpecImpl for JavaScriptStream {
    open spec fn obeys_eq_spec() -> bool {
        true
    }

    open spec fn eq_spec(&self, other: &Self) -> bool {
        self@ == other@
    }
}

impl Eq for JavaScriptStream {}

/// A reader of a stream: a handle that leads to the stream, and the position of
/// the value that is handed out.
#[derive(Debug)]
pub struct JsStreamable<S> {
    pub inner: S,
    pub index: usize,
}

impl<S> JsStreamable<S> {
    /// Whether there is a value at the position that can be handed out, or none
    /// at all. An empty value cannot.
    pub fn can_poll(&self, stream: &JavaScriptStream) -> (can: bool)
        ensures
            can == stream@.pollable(self.index as int),
            can == !(self.index < stream@.values.len() && stream@.values[self.index as int] is Empty),
    {
        if self.index < stream.0.data.len() {
            assert(stream@.values[self.index as int] == stream.0.data@[self.index as int]@);
            match stream.0.data[self.index] {
                JavaScriptValue::Empty => false,
                _ => true,
            }
        } else {
            true
        }
    }

    /// Looks for the value at the position in the stream that the handle leads to.
    /// The position stays: a further poll finds the same value again.
    pub fn poll_next(&self, stream: &JavaScriptStream) -> (found: StreamPoll)
        requires
            stream@.pollable(self.index as int),
        ensures
            found@ == stream@.polled(self.index as int),
            0 <= self.index < stream@.values.len() ==> (match stream@.values[self.index as int] {
                ValueView::Value(text) => found matches StreamPoll::Ready(Some(Ok(t))) && t@ == text,
                _ => found matches StreamPoll::Ready(Some(Err(_))),
            }),
            self.index >= stream@.values.len() && stream@.done ==> found matches StreamPoll::Ready(None),
            self.index >= stream@.values.len() && !stream@.done ==> found is Pending,
    {
        stream.0.poll(self.index)
    }
}

/// A stream that is restored from the values of a finished one hands out the same
/// values at the same positions. Behind them it is pending, not finished.
pub proof fn law_restored_stream(
    finished: StreamView,
    serialized: Seq<JavaScriptValue>,
    restored: StreamView,
    index: int,
)
    requires
        finished.done,
        values_view(serialized) == finished.values,
        restored == (StreamView { done: false, values: values_view(serialized) }),
        0 <= index,
    ensures
        index < finished.values.len() ==> restored.polled(index) == finished.polled(index),
        index >= finished.values.len() ==> restored.polled(index) == PollView::Pending
            && finished.polled(index) == PollView::Finished,
{
}


/// A poll finds the value at its position as it is: a text gives that same text,
/// whatever it holds, and only an error gives an error. Behind the values it finds
/// the end of a stream that is done, and nothing as yet of one that is not.
pub proof fn law_poll_finds_the_value_itself(
    done: bool,
    before: Seq<ValueView>,
    text: Seq<char>,
    after: Seq<ValueView>,
    beyond: int,
)
    requires
        beyond >= 0,
    ensures
        ({
            let all = before + seq![ValueView::Value(text)] + after;
            let stream = StreamView { done, values: all };
            &&& stream.pollable(before.len() as int)
            &&& stream.polled(before.len() as int) == PollView::Item(text)
            &&& stream.pollable(all.len() + beyond)
            &&& stream.polled(all.len() + beyond) == if done {
                PollView::Finished
            } else {
                PollView::Pending
            }
        }),
        ({
            let stream = StreamView { done, values: before + seq![ValueView::Error] + after };
            &&& stream.pollable(before.len() as int)
            &&& stream.polled(before.len() as int) == PollView::Failed
        }),
        !(StreamView { done, values: before + seq![ValueView::Empty] + after }).pollable(
            before.len() as int,
        ),
{
    assert((before + seq![ValueView::Value(text)] + after)[before.len() as int]
        == ValueView::Value(text));
    assert((before + seq![ValueView::Error] + after)[before.len() as int] == ValueView::Error);
    assert((before + seq![ValueView::Empty] + after)[before.len() as int] == ValueView::Empty);
}

/// What a poll finds at a position tells the value there, and conversely.
pub proof fn law_poll_tells_the_value(stream: StreamView, index: int, text: Seq<char>)
    requires
        0 <= index,
        stream.pollable(index),
    ensures
        stream.polled(index) == PollView::Item(text) <==> index < stream.values.len()
            && stream.values[index] == ValueView::Value(text),
        stream.polled(index) == PollView::Failed <==> index < stream.values.len()
            && stream.values[index] == ValueView::Error,
        stream.polled(index) == PollView::Finished <==> index >= stream.values.len() && stream.done,
        stream.polled(index) == PollView::Pending <==> index >= stream.values.len() && !stream.done,
{
}

/// The model of what a poll found tells everything about it.
pub proof fn law_poll_model_is_faithful(found: StreamPoll, text: Seq<char>)
    ensures
        found@ == PollView::Item(text) <==> (found matches StreamPoll::Ready(Some(Ok(t))) && t@
            == text),
        found@ == PollView::Failed <==> found matches StreamPoll::Ready(Some(Err(_))),
        found@ == PollView::Finished <==> found matches StreamPoll::Ready(None),
        found@ == PollView::Pending <==> found is Pending,
{
}

/// A value that comes in is found by a poll at the position behind those before
/// it, as the same text, and leaves the stream open. So is the text that an end
/// brings, and an error; both finish the stream.
pub proof fn law_recorded_output_is_polled<E>(
    stream: StreamView,
    text: String,
    error: E,
    index: int,
)
    ensures
        ({
            let end = stream.values.len() as int;
            let value = stream.recorded(EvalJavaScriptIncomingMessage::<E>::Value { data: text });
            let last = stream.recorded(
                EvalJavaScriptIncomingMessage::<E>::End { data: Some(text) },
            );
            let bare = stream.recorded(EvalJavaScriptIncomingMessage::<E>::End { data: None });
            let failed = stream.recorded(EvalJavaScriptIncomingMessage::<E>::Error(error));
            &&& value.polled(end) == PollView::Item(text@)
            &&& value.done == stream.done
            &&& last.polled(end) == PollView::Item(text@)
            &&& last.polled(end + 1) == PollView::Finished
            &&& bare.polled(end) == PollView::Finished
            &&& failed.polled(end) == PollView::Failed
            &&& failed.polled(end + 1) == PollView::Finished
            &&& 0 <= index < end ==> value.values[index] == stream.values[index]
            &&& 0 <= index < end ==> last.values[index] == stream.values[index]
            &&& 0 <= index < end ==> bare.values[index] == stream.values[index]
            &&& 0 <= index < end ==> failed.values[index] == stream.values[index]
            &&& value.values.len() == end + 1
            &&& last.values.len() == end + 1
            &&& bare.values.len() == end
            &&& failed.values.len() == end + 1
        }),
{
}

/// `==` on streams compares whether they are done, and every value.
pub proof fn law_stream_equality(a: JavaScriptStream, b: JavaScriptStream)
    ensures
        JavaScriptStream::obeys_eq_spec(),
        a.eq_spec(&b) <==> a@.done == b@.done && a@.values.len() == b@.values.len() && forall|i: int|
            0 <= i < a@.values.len() ==> #[trigger] a@.values[i] == b@.values[i],
{
    if a@.values.len() == b@.values.len() && (forall|i: int|
        0 <= i < a@.values.len() ==> #[trigger] a@.values[i] == b@.values[i]) {
        assert(a@.values =~= b@.values);
    }
}

}
