//! The messages that are exchanged with the process that evaluates the code.
use vstd::prelude::*;

verus! {

/// A message to the process. `A` is the type of an argument.
#[derive(Debug)]
pub enum EvalJavaScriptOutgoingMessage<A> {
    Evaluate { args: Vec<A> },
}

/// A message from the process. `E` is the error that the evaluated code may
/// report; it is carried along and never looked into.
#[allow(inconsistent_fields)]
#[derive(Debug)]
pub enum EvalJavaScriptIncomingMessage<E> {
    FileDependency { path: String },
    BuildDependency { path: String },
    DirDependency { path: String, glob: String },
    Value { data: String },
    End { data: Option<String> },
    Error(E),
}

impl<E> EvalJavaScriptIncomingMessage<E> {
    /// Whether the message is an output of the evaluated code, in contrast to
    /// the report of a dependency.
    pub open spec fn is_output_spec(&self) -> bool {
        self is Value || self is End || self is Error
    }

    /// Whether the message is an output of the evaluated code, in contrast to
    /// the report of a dependency.
    pub fn is_output(&self) -> (output: bool)
        ensures
            output == self.is_output_spec(),
            match *self {
                EvalJavaScriptIncomingMessage::FileDependency { .. } => !output,
                EvalJavaScriptIncomingMessage::BuildDependency { .. } => !output,
                EvalJavaScriptIncomingMessage::DirDependency { .. } => !output,
                EvalJavaScriptIncomingMessage::Value { .. } => output,
                EvalJavaScriptIncomingMessage::End { .. } => output,
                EvalJavaScriptIncomingMessage::Error(_) => output,
            },
    {
        match self {
            EvalJavaScriptIncomingMessage::Value { .. } => true,
            EvalJavaScriptIncomingMessage::End { .. } => true,
            EvalJavaScriptIncomingMessage::Error(_) => true,
            _ => false,
        }
    }
}


/// Values, ends and errors are outputs, whatever they carry. Reports of files, of
/// build dependencies and of directories are not, whatever they name.
pub proof fn law_outputs_by_kind<E>(
    text: String,
    other: String,
    data: Option<String>,
    error: E,
)
    ensures
        (EvalJavaScriptIncomingMessage::<E>::Value { data: text }).is_output_spec(),
        (EvalJavaScriptIncomingMessage::<E>::End { data }).is_output_spec(),
        EvalJavaScriptIncomingMessage::<E>::Error(error).is_output_spec(),
        !(EvalJavaScriptIncomingMessage::<E>::FileDependency { path: text }).is_output_spec(),
        !(EvalJavaScriptIncomingMessage::<E>::BuildDependency { path: text }).is_output_spec(),
        !(EvalJavaScriptIncomingMessage::<E>::DirDependency {
            path: text,
            glob: other,
        }).is_output_spec(),
{
}

}
