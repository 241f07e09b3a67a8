//! The course of an evaluation, from its arguments to the last of its outputs.
use crate::message::{EvalJavaScriptIncomingMessage, EvalJavaScriptOutgoingMessage};
use crate::stream::{JavaScriptStream, PollView, StreamView};
use crate::value::{JavaScriptValue, ValueView};
use vstd::pervasive::unreached;
use vstd::prelude::*;
use vstd::std_specs::cmp::PartialEqSpec;

verus! {

/// The result of an evaluation: one value, or a stream that may still grow.
#[derive(Debug)]
pub enum JavaScriptEvaluation {
    Single(JavaScriptValue),
    Stream(JavaScriptStream),
}

/// The mathematical model of a [`JavaScriptEvaluation`].
pub enum EvaluationView {
    Single(ValueView),
    Stream(StreamView),
}

impl View for JavaScriptEvaluation {
    type V = EvaluationView;

    open spec fn view(&self) -> EvaluationView {
        match self {
            JavaScriptEvaluation::Single(value) => EvaluationView::Single(value@),
            JavaScriptEvaluation::Stream(stream) => EvaluationView::Stream(stream@),
        }
    }
}

impl PartialEq for JavaScriptEvaluation {
    fn eq(&self, other: &Self) -> (same: bool)
        ensures
            match (*self, *other) {
                (JavaScriptEvaluation::Single(a), JavaScriptEvaluation::Single(b)) => same == (a@
                    == b@),
                (JavaScriptEvaluation::Stream(a), JavaScriptEvaluation::Stream(b)) => same == (a@
                    == b@),
                _ => !same,
            },
    {
        match (self, other) {
            (JavaScriptEvaluation::Single(a), JavaScriptEvaluation::Single(b)) => *a == *b,
            (JavaScriptEvaluation::Stream(a), JavaScriptEvaluation::Stream(b)) => *a == *b,
            _ => false,
        }
    }
}

impl vstd::std_specs::cmp::PartialEqSpecImpl for JavaScriptEvaluation {
    open spec fn obeys_eq_spec() -> bool {
        true
    }

    open spec fn eq_spec(&self, other: &Self) -> bool {
        self@ == other@
    }
}

impl Eq for JavaScriptEvaluation {}

/// What follows an output.
#[derive(Debug, Clone, Copy, PartialEq, Eq, Structural)]
pub enum AfterOutput {
    /// The next output is to be received.
    Receive,
    /// The evaluation is over. The process is to be waited for, or killed.
    WaitOrKill,
    /// The evaluation is over, and the process is left to others.
    Stop,
}

/// An evaluation under way.
#[derive(Debug)]
pub struct Evaluation {
    kill: bool,
}

/// Begins an evaluation, and gives the message to send to the process. One
/// without arguments counts as a one-off operation, whose process can be killed
/// at its end.
pub fn evaluate<A>(args: Vec<A>) -> (begun: (Evaluation, EvalJavaScriptOutgoingMessage<A>))
    ensures
        begun.0.is_one_off() == (args@.len() == 0),
        begun.1 == (EvalJavaScriptOutgoingMessage::Evaluate { args }),
{
    let kill = args.len() == 0;
    (Evaluation { kill }, EvalJavaScriptOutgoingMessage::Evaluate { args })
}

impl Evaluation {
    /// Whether the process can be killed at the end.
    pub closed spec fn is_one_off(self) -> bool {
        self.kill
    }

    /// What follows the regular end of the evaluation.
    pub open spec fn after_end(self) -> AfterOutput {
        if self.is_one_off() {
            AfterOutput::WaitOrKill
        } else {
            AfterOutput::Stop
        }
    }

    /// What follows an output that a stream has taken in.
    pub open spec fn after_streamed<E>(self, output: EvalJavaScriptIncomingMessage<E>) -> AfterOutput {
        if output is Value {
            AfterOutput::Receive
        } else {
            self.after_end()
        }
    }

    /// The result that the first output decides. A value opens a stream, which
    /// holds that value alone and may still grow.
    pub open spec fn result_of<E>(output: EvalJavaScriptIncomingMessage<E>) -> EvaluationView {
        match output {
            EvalJavaScriptIncomingMessage::End { data: Some(data) } => EvaluationView::Single(
                ValueView::Value(data@),
            ),
            EvalJavaScriptIncomingMessage::End { data: None } => EvaluationView::Single(
                ValueView::Empty,
            ),
            EvalJavaScriptIncomingMessage::Value { data } => EvaluationView::Stream(
                StreamView { done: false, values: seq![ValueView::Value(data@)] },
            ),
            _ => EvaluationView::Single(ValueView::Error),
        }
    }

    /// What follows the first output. After an error the process is left alone.
    pub open spec fn after_first<E>(self, output: EvalJavaScriptIncomingMessage<E>) -> AfterOutput {
        match output {
            EvalJavaScriptIncomingMessage::End { .. } => self.after_end(),
            EvalJavaScriptIncomingMessage::Value { .. } => AfterOutput::Receive,
            _ => AfterOutput::Stop,
        }
    }

    /// The result of the evaluation, which the first output decides, and what
    /// follows it.
    pub fn first_output<E>(&self, output: EvalJavaScriptIncomingMessage<E>) -> (result: (
        JavaScriptEvaluation,
        AfterOutput,
    ))
        requires
            output.is_output_spec(),
        ensures
            result.0@ == Evaluation::result_of(output),
            result.1 == self.after_first(output),
            match output {
                EvalJavaScriptIncomingMessage::End { data: Some(data) } => {
                    &&& result.0 matches JavaScriptEvaluation::Single(JavaScriptValue::Value(text))
                    &&& text@ == data@
                    &&& result.1 == if self.is_one_off() {
                        AfterOutput::WaitOrKill
                    } else {
                        AfterOutput::Stop
                    }
                },
                EvalJavaScriptIncomingMessage::End { data: None } => {
                    &&& result.0 matches JavaScriptEvaluation::Single(JavaScriptValue::Empty)
                    &&& result.1 == if self.is_one_off() {
                        AfterOutput::WaitOrKill
                    } else {
                        AfterOutput::Stop
                    }
                },
                EvalJavaScriptIncomingMessage::Value { data } => {
                    &&& result.0 matches JavaScriptEvaluation::Stream(stream)
                    &&& !stream@.done
                    &&& stream@.values == seq![ValueView::Value(data@)]
                    &&& result.1 == AfterOutput::Receive
                },
                EvalJavaScriptIncomingMessage::Error(_) => {
                    &&& result.0 matches JavaScriptEvaluation::Single(JavaScriptValue::Error)
                    &&& result.1 == AfterOutput::Stop
                },
                _ => false,
            },
    {
        match output {
            EvalJavaScriptIncomingMessage::End { data } => (
                JavaScriptEvaluation::Single(JavaScriptValue::from(data)),
                self.ended(),
            ),
            EvalJavaScriptIncomingMessage::Error(_) => (
                JavaScriptEvaluation::Single(JavaScriptValue::Error),
                AfterOutput::Stop,
            ),
            EvalJavaScriptIncomingMessage::Value { data } => {
                let mut values: Vec<JavaScriptValue> = Vec::new();
                values.push(JavaScriptValue::from(data));
                let stream = JavaScriptStream::new(values);
                assert(stream@.values =~= seq![ValueView::Value(data@)]);
                (JavaScriptEvaluation::Stream(stream), AfterOutput::Receive)
            },
            _ => unreached(),
        }
    }

    /// Adds a further output to the stream that the first one opened, and says
    /// what follows it.
    pub fn streamed_output<E>(
        &self,
        stream: &mut JavaScriptStream,
        output: EvalJavaScriptIncomingMessage<E>,
    ) -> (after: AfterOutput)
        requires
            output.is_output_spec(),
        ensures
            final(stream)@ == old(stream)@.recorded(output),
            after == self.after_streamed(output),
            match output {
                EvalJavaScriptIncomingMessage::Value { data } => {
                    &&& final(stream)@.values == old(stream)@.values.push(ValueView::Value(data@))
                    &&& final(stream)@.done == old(stream)@.done
                    &&& after == AfterOutput::Receive
                },
                EvalJavaScriptIncomingMessage::End { data: Some(data) } => {
                    &&& final(stream)@.values == old(stream)@.values.push(ValueView::Value(data@))
                    &&& final(stream)@.done
                    &&& after == if self.is_one_off() {
                        AfterOutput::WaitOrKill
                    } else {
                        AfterOutput::Stop
                    }
                },
                EvalJavaScriptIncomingMessage::End { data: None } => {
                    &&& final(stream)@.values == old(stream)@.values
                    &&& final(stream)@.done
                    &&& after == if self.is_one_off() {
                        AfterOutput::WaitOrKill
                    } else {
                        AfterOutput::Stop
                    }
                },
                EvalJavaScriptIncomingMessage::Error(_) => {
                    &&& final(stream)@.values == old(stream)@.values.push(ValueView::Error)
                    &&& final(stream)@.done
                    &&& after == if self.is_one_off() {
                        AfterOutput::WaitOrKill
                    } else {
                        AfterOutput::Stop
                    }
                },
                _ => false,
            },
    {
        if stream.record(output) {
            AfterOutput::Receive
        } else {
            self.ended()
        }
    }

    fn ended(&self) -> (after: AfterOutput)
        ensures
            after == self.after_end(),
    {
        if self.kill {
            AfterOutput::WaitOrKill
        } else {
            AfterOutput::Stop
        }
    }
}

/// What a stream holds after several outputs.
pub open spec fn recorded_all<E>(
    stream: StreamView,
    outputs: Seq<EvalJavaScriptIncomingMessage<E>>,
) -> StreamView
    decreases outputs.len(),
{
    if outputs.len() == 0 {
        stream
    } else {
        recorded_all(stream, outputs.drop_last()).recorded(outputs.last())
    }
}

/// The value that an output carries, as a sequence of at most one item.
pub open spec fn carried<E>(output: EvalJavaScriptIncomingMessage<E>) -> Seq<ValueView> {
    match output {
        EvalJavaScriptIncomingMessage::Value { data } => seq![ValueView::Value(data@)],
        EvalJavaScriptIncomingMessage::End { data: Some(data) } => seq![ValueView::Value(data@)],
        EvalJavaScriptIncomingMessage::Error(_) => seq![ValueView::Error],
        _ => Seq::empty(),
    }
}

/// The values that several outputs carry, in order.
pub open spec fn carried_all<E>(outputs: Seq<EvalJavaScriptIncomingMessage<E>>) -> Seq<ValueView>
    decreases outputs.len(),
{
    if outputs.len() == 0 {
        Seq::empty()
    } else {
        carried_all(outputs.drop_last()) + carried(outputs.last())
    }
}

/// A stream keeps every value that the outputs carry, in order, behind those
/// that it began with. It is done once an output other than a value came.
pub proof fn law_stream_collects_outputs<E>(
    stream: StreamView,
    outputs: Seq<EvalJavaScriptIncomingMessage<E>>,
)
    requires
        forall|i: int| 0 <= i < outputs.len() ==> (#[trigger] outputs[i]).is_output_spec(),
    ensures
        recorded_all(stream, outputs).values == stream.values + carried_all(outputs),
        recorded_all(stream, outputs).done == (stream.done || exists|i: int|
            0 <= i < outputs.len() && !(#[trigger] outputs[i] is Value)),
    decreases outputs.len(),
{
    if outputs.len() == 0 {
        assert(stream.values + carried_all(outputs) =~= stream.values);
    } else {
        let init = outputs.drop_last();
        let last = outputs.last();
        assert forall|i: int| 0 <= i < init.len() implies (#[trigger] init[i]).is_output_spec() by {
            assert(init[i] == outputs[i]);
        }
        law_stream_collects_outputs(stream, init);
        assert(last.is_output_spec()) by {
            assert(outputs[outputs.len() - 1].is_output_spec());
        }
        let before = recorded_all(stream, init);
        assert(before.recorded(last).values =~= before.values + carried(last));
        assert(recorded_all(stream, outputs).values =~= stream.values + carried_all(outputs));
        if exists|i: int| 0 <= i < init.len() && !(#[trigger] init[i] is Value) {
            let i = choose|i: int| 0 <= i < init.len() && !(#[trigger] init[i] is Value);
            assert(!(outputs[i] is Value));
        }
        if !(last is Value) {
            assert(!(outputs[outputs.len() - 1] is Value));
        }
        if exists|i: int| 0 <= i < outputs.len() && !(#[trigger] outputs[i] is Value) {
            let i = choose|i: int| 0 <= i < outputs.len() && !(#[trigger] outputs[i] is Value);
            if i < init.len() {
                assert(!(init[i] is Value));
            }
        }
    }
}

/// A value that a poll has found stays where it is, whatever is taken in later.
pub proof fn law_polled_values_stay<E>(
    stream: StreamView,
    outputs: Seq<EvalJavaScriptIncomingMessage<E>>,
    index: int,
)
    requires
        0 <= index < stream.values.len(),
    ensures
        index < recorded_all(stream, outputs).values.len(),
        recorded_all(stream, outputs).polled(index) == stream.polled(index),
    decreases outputs.len(),
{
    if outputs.len() > 0 {
        law_polled_values_stay(stream, outputs.drop_last(), index);
    }
}

/// What is true at any time of a stream that began with some values: they stay in
/// front, no empty value follows them, and an error that follows them is the last
/// value of a stream that is done.
pub open spec fn grown_from(initial: Seq<ValueView>, stream: StreamView) -> bool {
    &&& initial.is_prefix_of(stream.values)
    &&& forall|i: int|
        initial.len() <= i < stream.values.len() ==> !(#[trigger] stream.values[i] is Empty) && (
        stream.values[i] is Error ==> i == stream.values.len() - 1 && stream.done)
}

/// A stream keeps to [`grown_from`] under the outputs that an evaluation adds to
/// it: values, and at last an end or an error. So every position that was not
/// empty from the start can be polled at any time.
pub proof fn law_stream_grows<E>(
    initial: Seq<ValueView>,
    stream: StreamView,
    outputs: Seq<EvalJavaScriptIncomingMessage<E>>,
    index: int,
)
    requires
        grown_from(initial, stream),
        !stream.done,
        forall|i: int| 0 <= i < outputs.len() - 1 ==> #[trigger] outputs[i] is Value,
        0 <= index,
        index < initial.len() ==> !(initial[index] is Empty),
    ensures
        grown_from(initial, recorded_all(stream, outputs)),
        recorded_all(stream, outputs).pollable(index),
        outputs.len() > 0 && outputs.last() is Value ==> !recorded_all(stream, outputs).done,
    decreases outputs.len(),
{
    let after = recorded_all(stream, outputs);
    if outputs.len() > 0 {
        let init = outputs.drop_last();
        assert forall|i: int| 0 <= i < init.len() - 1 implies #[trigger] init[i] is Value by {
            assert(init[i] == outputs[i]);
        }
        law_stream_grows(initial, stream, init, index);
        if init.len() > 0 {
            assert(outputs[init.len() - 1] is Value);
        }
        assert(!recorded_all(stream, init).done);
        assert(initial =~= after.values.take(initial.len() as int));
    }
    if index < initial.len() {
        assert(initial[index] == after.values[index]);
    }
}

/// An evaluation goes on as long as its outputs are values, and ends with the
/// first that is not, which is when its stream is done. The process of a one-off
/// evaluation is then waited for or killed.
pub proof fn law_stream_ends_once<E>(
    evaluation: Evaluation,
    stream: StreamView,
    output: EvalJavaScriptIncomingMessage<E>,
)
    requires
        output.is_output_spec(),
        !stream.done,
    ensures
        evaluation.after_streamed(output) == AfterOutput::Receive <==> !stream.recorded(output).done,
        evaluation.after_streamed(output) == AfterOutput::WaitOrKill <==> stream.recorded(output).done
            && evaluation.is_one_off(),
{
}


/// The data of a first end message is the result, whatever text it is. The result
/// is the empty value exactly when the end message carries no data.
pub proof fn law_end_data_is_the_result<E>(data: String, optional: Option<String>)
    ensures
        Evaluation::result_of(EvalJavaScriptIncomingMessage::<E>::End { data: Some(data) })
            == EvaluationView::Single(ValueView::Value(data@)),
        Evaluation::result_of(EvalJavaScriptIncomingMessage::<E>::End { data: optional })
            == EvaluationView::Single(ValueView::Empty) <==> optional is None,
{
}

/// Two first end messages with different texts give different results, and so do
/// two first values: nothing of the data is lost.
pub proof fn law_results_keep_data_apart<E>(a: String, b: String)
    ensures
        Evaluation::result_of(EvalJavaScriptIncomingMessage::<E>::End { data: Some(a) })
            == Evaluation::result_of(EvalJavaScriptIncomingMessage::<E>::End { data: Some(b) })
            <==> a@ == b@,
        Evaluation::result_of(EvalJavaScriptIncomingMessage::<E>::Value { data: a })
            == Evaluation::result_of(EvalJavaScriptIncomingMessage::<E>::Value { data: b }) <==> a@
            == b@,
{
    let x = Evaluation::result_of(EvalJavaScriptIncomingMessage::<E>::Value { data: a });
    let y = Evaluation::result_of(EvalJavaScriptIncomingMessage::<E>::Value { data: b });
    assert(x->Stream_0.values[0] == ValueView::Value(a@));
    assert(y->Stream_0.values[0] == ValueView::Value(b@));
}

/// A first value opens a stream whose only value it is, which a poll finds at the
/// first position; the position behind it is pending. A first error is the error.
pub proof fn law_first_value_opens_a_stream<E>(data: String, error: E)
    ensures
        Evaluation::result_of(EvalJavaScriptIncomingMessage::<E>::Value { data }) matches
            EvaluationView::Stream(stream) && stream.values.len() == 1 && !stream.done
            && stream.values[0] == ValueView::Value(data@) && stream.polled(0) == PollView::Item(data@)
            && stream.polled(1) == PollView::Pending,
        Evaluation::result_of(EvalJavaScriptIncomingMessage::<E>::Error(error))
            == EvaluationView::Single(ValueView::Error),
{
}

/// An evaluation goes on after its first output exactly when that output is a
/// value, which is when the result is a stream that is not done. Whether it is
/// one-off plays no part in that. It has the process waited for or killed exactly
/// when it ends regularly and is one-off.
pub proof fn law_first_output_goes_on_with_a_stream<E>(
    evaluation: Evaluation,
    output: EvalJavaScriptIncomingMessage<E>,
)
    requires
        output.is_output_spec(),
    ensures
        evaluation.after_first(output) == AfterOutput::Receive <==> output is Value,
        evaluation.after_first(output) == AfterOutput::Receive <==> (Evaluation::result_of(
            output,
        ) matches EvaluationView::Stream(stream) && !stream.done),
        Evaluation::result_of(output) is Single <==> !(output is Value),
        evaluation.after_first(output) == AfterOutput::WaitOrKill <==> output is End
            && evaluation.is_one_off(),
        evaluation.after_first(output) == AfterOutput::Stop <==> output is Error || (output is End
            && !evaluation.is_one_off()),
{
}

/// What follows an output that a stream has taken in, by its kind.
pub proof fn law_streamed_output_by_kind<E>(
    evaluation: Evaluation,
    output: EvalJavaScriptIncomingMessage<E>,
)
    requires
        output.is_output_spec(),
    ensures
        evaluation.after_streamed(output) == AfterOutput::Receive <==> output is Value,
        evaluation.after_streamed(output) == AfterOutput::WaitOrKill <==> !(output is Value)
            && evaluation.is_one_off(),
        evaluation.after_streamed(output) == AfterOutput::Stop <==> !(output is Value)
            && !evaluation.is_one_off(),
        evaluation.after_end() == AfterOutput::WaitOrKill <==> evaluation.is_one_off(),
        evaluation.after_end() == AfterOutput::Stop <==> !evaluation.is_one_off(),
{
}

/// The values that come in one after the other stand in the stream in that order,
/// each with its own text, behind those that were there. An output that ends the
/// stream adds its text or error last.
pub proof fn law_streamed_values_stand_in_order<E>(
    stream: StreamView,
    outputs: Seq<EvalJavaScriptIncomingMessage<E>>,
    text: String,
    error: E,
)
    requires
        forall|i: int| 0 <= i < outputs.len() ==> #[trigger] outputs[i] is Value,
    ensures
        ({
            let after = recorded_all(stream, outputs);
            let count = (stream.values.len() + outputs.len()) as int;
            &&& after.done == stream.done
            &&& after.values.len() == count
            &&& forall|i: int|
                0 <= i < stream.values.len() ==> #[trigger] after.values[i] == stream.values[i]
            &&& forall|i: int|
                0 <= i < outputs.len() ==> (#[trigger] outputs[i] matches
                    EvalJavaScriptIncomingMessage::Value { data } && after.values[stream.values.len()
                    + i] == ValueView::Value(data@))
            &&& recorded_all(
                stream,
                outputs.push(EvalJavaScriptIncomingMessage::End { data: Some(text) }),
            ) == (StreamView { done: true, values: after.values.push(ValueView::Value(text@)) })
            &&& recorded_all(stream, outputs.push(EvalJavaScriptIncomingMessage::End { data: None }))
                == (StreamView { done: true, values: after.values })
            &&& recorded_all(stream, outputs.push(EvalJavaScriptIncomingMessage::Error(error))) == (
            StreamView { done: true, values: after.values.push(ValueView::Error) })
        }),
    decreases outputs.len(),
{
    let some = outputs.push(EvalJavaScriptIncomingMessage::End { data: Some(text) });
    let none = outputs.push(EvalJavaScriptIncomingMessage::End { data: None });
    let failed = outputs.push(EvalJavaScriptIncomingMessage::Error(error));
    assert(some.drop_last() =~= outputs);
    assert(none.drop_last() =~= outputs);
    assert(failed.drop_last() =~= outputs);
    if outputs.len() > 0 {
        let init = outputs.drop_last();
        assert forall|i: int| 0 <= i < init.len() implies #[trigger] init[i] is Value by {
            assert(init[i] == outputs[i]);
        }
        law_streamed_values_stand_in_order(stream, init, text, error);
        assert(outputs[outputs.len() - 1] is Value);
        let before = recorded_all(stream, init);
        let after = recorded_all(stream, outputs);
        assert forall|i: int| 0 <= i < outputs.len() implies (#[trigger] outputs[i] matches
            EvalJavaScriptIncomingMessage::Value { data } && after.values[stream.values.len() + i]
            == ValueView::Value(data@)) by {
            if i < init.len() {
                assert(init[i] == outputs[i]);
                assert(after.values[stream.values.len() + i] == before.values[stream.values.len()
                    + i]);
            }
        }
    }
}

/// What an output carries: the text of a value or of an end, the error of an
/// error, and nothing where an end has no text.
pub proof fn law_outputs_carry_their_data<E>(text: String, error: E)
    ensures
        carried(EvalJavaScriptIncomingMessage::<E>::Value { data: text }) == seq![
            ValueView::Value(text@),
        ],
        carried(EvalJavaScriptIncomingMessage::<E>::End { data: Some(text) }) == seq![
            ValueView::Value(text@),
        ],
        carried(EvalJavaScriptIncomingMessage::<E>::End { data: None }).len() == 0,
        carried(EvalJavaScriptIncomingMessage::<E>::Error(error)) == seq![ValueView::Error],
{
}

/// `==` on results compares two single values by their kinds and texts, and two
/// streams by what they hold. A single value is never a stream.
pub proof fn law_evaluation_equality(a: JavaScriptEvaluation, b: JavaScriptEvaluation)
    ensures
        JavaScriptEvaluation::obeys_eq_spec(),
        a.eq_spec(&b) <==> (match (a, b) {
            (JavaScriptEvaluation::Single(x), JavaScriptEvaluation::Single(y)) => x@ == y@,
            (JavaScriptEvaluation::Stream(x), JavaScriptEvaluation::Stream(y)) => x@ == y@,
            _ => false,
        }),
{
}

}
