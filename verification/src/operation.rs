//! The loop that receives messages until the evaluated code has an output.
use crate::issue::EvaluationIssue;
use crate::message::EvalJavaScriptIncomingMessage;
use std::collections::VecDeque;
use vstd::pervasive::unreached;
use vstd::prelude::*;

verus! {

/// What is to be done about a message.
#[derive(Debug)]
pub enum LoopAction<P, E> {
    /// Start to read the file at this path, below the working directory, and
    /// report the read by [`LoopOperation::file_read_started`].
    ReadFile { path: String },
    /// Start to read what the glob matches below this path, itself below the
    /// working directory, and report the read by
    /// [`LoopOperation::dir_read_started`].
    ReadDir { path: String, glob: String },
    /// Raise the issue, with this context path, that the file at this path, below
    /// the working directory, is a build dependency.
    EmitBuildDependency { context_path: P, path: String },
    /// Raise this issue.
    EmitEvaluation(EvaluationIssue<P, E>),
    /// Nothing.
    Continue,
}

/// A read that was started and has to be waited for.
#[derive(Debug)]
pub enum Dependency<F, D> {
    File(F),
    Dir(D),
}

/// The mathematical model of a [`LoopOperation`].
#[verifier::ext_equal]
pub struct LoopView<E, F, D> {
    /// The reads of files that are not yet waited for, in order.
    pub files: Seq<F>,
    /// The reads of directories that are not yet waited for, in order.
    pub dirs: Seq<D>,
    /// The message that ended the loop.
    pub output: Option<EvalJavaScriptIncomingMessage<E>>,
}

impl<E, F, D> LoopView<E, F, D> {
    /// Before any message.
    pub open spec fn start() -> LoopView<E, F, D> {
        LoopView { files: Seq::empty(), dirs: Seq::empty(), output: None }
    }

    /// The state with one more read of a file.
    pub open spec fn with_file(self, read: F) -> LoopView<E, F, D> {
        LoopView { files: self.files.push(read), dirs: self.dirs, output: self.output }
    }

    /// The state with one more read of a directory.
    pub open spec fn with_dir(self, read: D) -> LoopView<E, F, D> {
        LoopView { files: self.files, dirs: self.dirs.push(read), output: self.output }
    }

    /// The reads that are not yet waited for, in the order in which they are.
    pub open spec fn dependencies(self) -> Seq<Dependency<F, D>> {
        self.files.map_values(|f: F| Dependency::<F, D>::File(f)) + self.dirs.map_values(
            |d: D| Dependency::<F, D>::Dir(d),
        )
    }

    /// The state after a message: an output ends the loop, and nothing else does.
    pub open spec fn received(self, message: EvalJavaScriptIncomingMessage<E>) -> LoopView<E, F, D> {
        LoopView {
            files: self.files,
            dirs: self.dirs,
            output: if message.is_output_spec() {
                Some(message)
            } else {
                None
            },
        }
    }

    /// No message that reports a dependency has ended the loop.
    pub open spec fn well_formed(self) -> bool {
        self.output matches Some(output) ==> output.is_output_spec()
    }
}

/// The action that belongs to a message. The error of an issue is a clone of the
/// one that was received.
pub open spec fn action_for<P, E>(
    message: EvalJavaScriptIncomingMessage<E>,
    context_path: P,
    action: LoopAction<P, E>,
) -> bool where E: Clone {
    match message {
        EvalJavaScriptIncomingMessage::Error(error) => action matches LoopAction::EmitEvaluation(issue)
            && issue.context_path == context_path && cloned(error, issue.error),
        EvalJavaScriptIncomingMessage::Value { .. } => action is Continue,
        EvalJavaScriptIncomingMessage::End { .. } => action is Continue,
        EvalJavaScriptIncomingMessage::FileDependency { path } => action == (LoopAction::<P, E>::ReadFile {
            path,
        }),
        EvalJavaScriptIncomingMessage::BuildDependency { path } => action == (LoopAction::<
            P,
            E,
        >::EmitBuildDependency { context_path, path }),
        EvalJavaScriptIncomingMessage::DirDependency { path, glob } => action == (LoopAction::<
            P,
            E,
        >::ReadDir { path, glob }),
    }
}

/// The state of the loop. `F` and `D` are started reads of a file and of a
/// directory, `E` is the error that the evaluated code may report.
///
/// While it is receiving, each message goes to
/// [`received`](LoopOperation::received). After that, each of the reads that
/// were started is waited for, and the output is handed out at the end.
#[derive(Debug)]
#[verifier::reject_recursive_types(E)]
#[verifier::reject_recursive_types(F)]
#[verifier::reject_recursive_types(D)]
pub struct LoopOperation<E, F, D> {
    file_dependencies: VecDeque<F>,
    dir_dependencies: VecDeque<D>,
    output: Option<EvalJavaScriptIncomingMessage<E>>,
}

impl<E, F, D> View for LoopOperation<E, F, D> {
    type V = LoopView<E, F, D>;

    closed spec fn view(&self) -> LoopView<E, F, D> {
        LoopView {
            files: self.file_dependencies@,
            dirs: self.dir_dependencies@,
            output: self.output,
        }
    }
}

impl<E, F, D> LoopOperation<E, F, D> {
    /// A loop that has not received any message.
    pub fn new() -> (operation: Self)
        ensures
            operation@ == LoopView::<E, F, D>::start(),
            operation@.files.len() == 0,
            operation@.dirs.len() == 0,
            operation@.output is None,
    {
        LoopOperation {
            file_dependencies: VecDeque::new(),
            dir_dependencies: VecDeque::new(),
            output: None,
        }
    }

    /// Whether the loop waits for a further message.
    pub fn is_receiving(&self) -> (receiving: bool)
        ensures
            receiving == self@.output is None,
    {
        self.output.is_none()
    }

    /// Takes in a message and says what is to be done about it.
    pub fn received<P>(
        &mut self,
        message: EvalJavaScriptIncomingMessage<E>,
        context_path: P,
    ) -> (action: LoopAction<P, E>) where E: Clone
        requires
            old(self)@.output is None,
        ensures
            final(self)@ == old(self)@.received(message),
            action_for(message, context_path, action),
            final(self)@.files == old(self)@.files,
            final(self)@.dirs == old(self)@.dirs,
            match message {
                EvalJavaScriptIncomingMessage::FileDependency { path } => {
                    &&& action matches LoopAction::ReadFile { path: read }
                    &&& read@ == path@
                    &&& final(self)@.output is None
                },
                EvalJavaScriptIncomingMessage::DirDependency { path, glob } => {
                    &&& action matches LoopAction::ReadDir { path: read, glob: by }
                    &&& read@ == path@
                    &&& by@ == glob@
                    &&& final(self)@.output is None
                },
                EvalJavaScriptIncomingMessage::BuildDependency { path } => {
                    &&& action matches LoopAction::EmitBuildDependency {
                        context_path: context,
                        path: named,
                    }
                    &&& context == context_path
                    &&& named@ == path@
                    &&& final(self)@.output is None
                },
                EvalJavaScriptIncomingMessage::Value { .. } => {
                    &&& action is Continue
                    &&& final(self)@.output == Some(message)
                },
                EvalJavaScriptIncomingMessage::End { .. } => {
                    &&& action is Continue
                    &&& final(self)@.output == Some(message)
                },
                EvalJavaScriptIncomingMessage::Error(error) => {
                    &&& action matches LoopAction::EmitEvaluation(issue)
                    &&& issue.context_path == context_path
                    &&& cloned(error, issue.error)
                    &&& final(self)@.output == Some(message)
                },
            },
    {
        match message {
            EvalJavaScriptIncomingMessage::Error(error) => {
                let issue = EvaluationIssue { context_path, error: error.clone() };
                self.output = Some(EvalJavaScriptIncomingMessage::Error(error));
                LoopAction::EmitEvaluation(issue)
            },
            EvalJavaScriptIncomingMessage::Value { data } => {
                self.output = Some(EvalJavaScriptIncomingMessage::Value { data });
                LoopAction::Continue
            },
            EvalJavaScriptIncomingMessage::End { data } => {
                self.output = Some(EvalJavaScriptIncomingMessage::End { data });
                LoopAction::Continue
            },
            EvalJavaScriptIncomingMessage::FileDependency { path } => LoopAction::ReadFile { path },
            EvalJavaScriptIncomingMessage::BuildDependency { path } => {
                LoopAction::EmitBuildDependency { context_path, path }
            },
            EvalJavaScriptIncomingMessage::DirDependency { path, glob } => {
                LoopAction::ReadDir { path, glob }
            },
        }
    }

    /// Keeps the read of a file, to wait for it later.
    pub fn file_read_started(&mut self, read: F)
        ensures
            final(self)@ == old(self)@.with_file(read),
            final(self)@.files == old(self)@.files.push(read),
            final(self)@.dirs == old(self)@.dirs,
            final(self)@.output == old(self)@.output,
    {
        self.file_dependencies.push_back(read);
    }

    /// Keeps the read of a directory, to wait for it later.
    pub fn dir_read_started(&mut self, read: D)
        ensures
            final(self)@ == old(self)@.with_dir(read),
            final(self)@.files == old(self)@.files,
            final(self)@.dirs == old(self)@.dirs.push(read),
            final(self)@.output == old(self)@.output,
    {
        self.dir_dependencies.push_back(read);
    }

    /// The next read to wait for: those of files come first, then those of
    /// directories, each in the order in which they were started.
    pub fn next_dependency(&mut self) -> (dependency: Option<Dependency<F, D>>)
        requires
            old(self)@.output is Some,
        ensures
            final(self)@.output == old(self)@.output,
            old(self)@.dependencies().len() == 0 ==> dependency is None && final(self)@ == old(self)@,
            old(self)@.dependencies().len() > 0 ==> dependency == Some(old(self)@.dependencies()[0])
                && final(self)@.dependencies() == old(self)@.dependencies().drop_first(),
            if old(self)@.files.len() > 0 {
                &&& dependency == Some(Dependency::<F, D>::File(old(self)@.files[0]))
                &&& final(self)@.files == old(self)@.files.drop_first()
                &&& final(self)@.dirs == old(self)@.dirs
            } else if old(self)@.dirs.len() > 0 {
                &&& dependency == Some(Dependency::<F, D>::Dir(old(self)@.dirs[0]))
                &&& final(self)@.files == old(self)@.files
                &&& final(self)@.dirs == old(self)@.dirs.drop_first()
            } else {
                &&& dependency is None
                &&& final(self)@ == old(self)@
            },
    {
        let ghost before = self@;
        if let Some(file) = self.file_dependencies.pop_front() {
            assert(self@.dependencies() =~= before.dependencies().drop_first());
            return Some(Dependency::File(file));
        }
        match self.dir_dependencies.pop_front() {
            Some(dir) => {
                assert(self@.dependencies() =~= before.dependencies().drop_first());
                Some(Dependency::Dir(dir))
            },
            None => None,
        }
    }

    /// The output, once every read has been waited for. It is never a message
    /// that reports a dependency.
    pub fn into_output(self) -> (output: EvalJavaScriptIncomingMessage<E>)
        requires
            self@.well_formed(),
            self@.output is Some,
            self@.dependencies().len() == 0,
        ensures
            Some(output) == self@.output,
            output.is_output_spec(),
    {
        match self.output {
            Some(output) => output,
            None => unreached(),
        }
    }
}

/// What has become of the loop after one message: the reads that it asks for are
/// started by `read_file` and `read_dir`.
pub open spec fn loop_step<E, F, D>(
    state: LoopView<E, F, D>,
    message: EvalJavaScriptIncomingMessage<E>,
    read_file: spec_fn(String) -> F,
    read_dir: spec_fn(String, String) -> D,
) -> LoopView<E, F, D> {
    match message {
        EvalJavaScriptIncomingMessage::FileDependency { path } => state.received(message).with_file(
            read_file(path),
        ),
        EvalJavaScriptIncomingMessage::DirDependency { path, glob } => state.received(
            message,
        ).with_dir(read_dir(path, glob)),
        _ => state.received(message),
    }
}

/// What has become of the loop once it has ended, or all messages are used up.
pub open spec fn loop_run<E, F, D>(
    state: LoopView<E, F, D>,
    messages: Seq<EvalJavaScriptIncomingMessage<E>>,
    read_file: spec_fn(String) -> F,
    read_dir: spec_fn(String, String) -> D,
) -> LoopView<E, F, D>
    decreases messages.len(),
{
    if state.output is Some || messages.len() == 0 {
        state
    } else {
        loop_run(
            loop_step(state, messages[0], read_file, read_dir),
            messages.drop_first(),
            read_file,
            read_dir,
        )
    }
}

/// The reads of files that messages ask for, in order.
pub open spec fn file_reads<E, F>(
    messages: Seq<EvalJavaScriptIncomingMessage<E>>,
    read_file: spec_fn(String) -> F,
) -> Seq<F>
    decreases messages.len(),
{
    if messages.len() == 0 {
        Seq::empty()
    } else {
        (match messages[0] {
            EvalJavaScriptIncomingMessage::FileDependency { path } => seq![read_file(path)],
            _ => Seq::empty(),
        }) + file_reads(messages.drop_first(), read_file)
    }
}

/// The reads of directories that messages ask for, in order.
pub open spec fn dir_reads<E, D>(
    messages: Seq<EvalJavaScriptIncomingMessage<E>>,
    read_dir: spec_fn(String, String) -> D,
) -> Seq<D>
    decreases messages.len(),
{
    if messages.len() == 0 {
        Seq::empty()
    } else {
        (match messages[0] {
            EvalJavaScriptIncomingMessage::DirDependency { path, glob } => seq![
                read_dir(path, glob),
            ],
            _ => Seq::empty(),
        }) + dir_reads(messages.drop_first(), read_dir)
    }
}

/// The loop ends with the first output among the messages. By then it has
/// started exactly the reads that the messages before it ask for, in order, and
/// what comes after it plays no part.
pub proof fn law_loop_ends_with_first_output<E, F, D>(
    state: LoopView<E, F, D>,
    messages: Seq<EvalJavaScriptIncomingMessage<E>>,
    first: int,
    read_file: spec_fn(String) -> F,
    read_dir: spec_fn(String, String) -> D,
)
    requires
        state.output is None,
        0 <= first < messages.len(),
        messages[first].is_output_spec(),
        forall|i: int| 0 <= i < first ==> !(#[trigger] messages[i]).is_output_spec(),
    ensures
        loop_run(state, messages, read_file, read_dir) == (LoopView {
            files: state.files + file_reads(messages.take(first), read_file),
            dirs: state.dirs + dir_reads(messages.take(first), read_dir),
            output: Some(messages[first]),
        }),
    decreases messages.len(),
{
    let next = loop_step(state, messages[0], read_file, read_dir);
    let rest = messages.drop_first();
    if first == 0 {
        assert(loop_run(next, rest, read_file, read_dir) == next);
        assert(state.files + file_reads(messages.take(0), read_file) =~= state.files);
        assert(state.dirs + dir_reads(messages.take(0), read_dir) =~= state.dirs);
    } else {
        assert(!messages[0].is_output_spec());
        assert forall|i: int| 0 <= i < first - 1 implies !(#[trigger] rest[i]).is_output_spec() by {
            assert(rest[i] == messages[i + 1]);
        }
        law_loop_ends_with_first_output(next, rest, first - 1, read_file, read_dir);
        assert(messages.take(first)[0] == messages[0]);
        assert(messages.take(first).drop_first() =~= rest.take(first - 1));
        assert(next.files + file_reads(rest.take(first - 1), read_file) =~= state.files + file_reads(
            messages.take(first),
            read_file,
        ));
        assert(next.dirs + dir_reads(rest.take(first - 1), read_dir) =~= state.dirs + dir_reads(
            messages.take(first),
            read_dir,
        ));
    }
}

/// As long as no message is an output, the loop goes on receiving: reports of
/// dependencies cannot leak out of it.
pub proof fn law_dependencies_do_not_end_loop<E, F, D>(
    state: LoopView<E, F, D>,
    messages: Seq<EvalJavaScriptIncomingMessage<E>>,
    read_file: spec_fn(String) -> F,
    read_dir: spec_fn(String, String) -> D,
)
    requires
        state.output is None,
        forall|i: int| 0 <= i < messages.len() ==> !(#[trigger] messages[i]).is_output_spec(),
    ensures
        loop_run(state, messages, read_file, read_dir) == (LoopView::<E, F, D> {
            files: state.files + file_reads(messages, read_file),
            dirs: state.dirs + dir_reads(messages, read_dir),
            output: None,
        }),
    decreases messages.len(),
{
    if messages.len() == 0 {
        assert(state.files + file_reads(messages, read_file) =~= state.files);
        assert(state.dirs + dir_reads(messages, read_dir) =~= state.dirs);
    } else {
        let next = loop_step(state, messages[0], read_file, read_dir);
        let rest = messages.drop_first();
        assert(!messages[0].is_output_spec());
        assert forall|i: int| 0 <= i < rest.len() implies !(#[trigger] rest[i]).is_output_spec() by {
            assert(rest[i] == messages[i + 1]);
        }
        law_dependencies_do_not_end_loop(next, rest, read_file, read_dir);
        assert(next.files + file_reads(rest, read_file) =~= state.files + file_reads(
            messages,
            read_file,
        ));
        assert(next.dirs + dir_reads(rest, read_dir) =~= state.dirs + dir_reads(messages, read_dir));
    }
}


/// The outputs among messages, in order.
pub open spec fn outputs_of<E>(messages: Seq<EvalJavaScriptIncomingMessage<E>>) -> Seq<
    EvalJavaScriptIncomingMessage<E>,
>
    decreases messages.len(),
{
    if messages.len() == 0 {
        Seq::empty()
    } else if messages[0].is_output_spec() {
        seq![messages[0]] + outputs_of(messages.drop_first())
    } else {
        outputs_of(messages.drop_first())
    }
}

/// Loops that run one after the other over the same messages end with the
/// outputs among them, in order: one loop takes the first, and leaves the others
/// to those that follow.
pub proof fn law_successive_loops_take_outputs_in_order<E, F, D>(
    messages: Seq<EvalJavaScriptIncomingMessage<E>>,
    first: int,
    read_file: spec_fn(String) -> F,
    read_dir: spec_fn(String, String) -> D,
)
    requires
        0 <= first < messages.len(),
        messages[first].is_output_spec(),
        forall|i: int| 0 <= i < first ==> !(#[trigger] messages[i]).is_output_spec(),
    ensures
        loop_run(LoopView::start(), messages, read_file, read_dir).output == Some(
            outputs_of(messages)[0],
        ),
        outputs_of(messages).len() > 0,
        outputs_of(messages).drop_first() == outputs_of(messages.skip(first + 1)),
    decreases messages.len(),
{
    law_loop_ends_with_first_output(LoopView::start(), messages, first, read_file, read_dir);
    let rest = messages.drop_first();
    if first == 0 {
        assert(messages.skip(1) =~= rest);
        assert(outputs_of(messages).drop_first() =~= outputs_of(rest));
    } else {
        assert(!messages[0].is_output_spec());
        assert forall|i: int| 0 <= i < first - 1 implies !(#[trigger] rest[i]).is_output_spec() by {
            assert(rest[i] == messages[i + 1]);
        }
        law_successive_loops_take_outputs_in_order(rest, first - 1, read_file, read_dir);
        law_loop_ends_with_first_output(LoopView::start(), rest, first - 1, read_file, read_dir);
        assert(rest.skip(first) =~= messages.skip(first + 1));
    }
}


/// The action that belongs to a message tells what the message reports, whatever
/// it names: a file is read exactly for the report of a file, and it is that file.
/// The same holds of directories, of build dependencies and of errors. Nothing is
/// to be done exactly for a value and for an end.
pub proof fn law_action_fits_the_message<P, E: Clone>(
    message: EvalJavaScriptIncomingMessage<E>,
    context_path: P,
    action: LoopAction<P, E>,
)
    requires
        action_for(message, context_path, action),
    ensures
        forall|path: String|
            action == (LoopAction::<P, E>::ReadFile { path }) <==> message == (
            EvalJavaScriptIncomingMessage::<E>::FileDependency { path }),
        forall|path: String, glob: String|
            action == (LoopAction::<P, E>::ReadDir { path, glob }) <==> message == (
            EvalJavaScriptIncomingMessage::<E>::DirDependency { path, glob }),
        forall|path: String|
            action == (LoopAction::<P, E>::EmitBuildDependency { context_path, path }) <==> message
                == (EvalJavaScriptIncomingMessage::<E>::BuildDependency { path }),
        message is FileDependency <==> action is ReadFile,
        message is DirDependency <==> action is ReadDir,
        message is BuildDependency <==> action is EmitBuildDependency,
        message is Error <==> action is EmitEvaluation,
        message is Value || message is End <==> action is Continue,
        message matches EvalJavaScriptIncomingMessage::Error(error) ==> (action matches
            LoopAction::EmitEvaluation(issue) && issue.context_path == context_path && cloned(
            error,
            issue.error,
        )),
{
}

/// Every message has an action: none is refused.
pub proof fn law_every_message_has_an_action<P, E: Clone>(
    message: EvalJavaScriptIncomingMessage<E>,
    context_path: P,
    copy: E,
)
    requires
        message matches EvalJavaScriptIncomingMessage::Error(error) ==> cloned(error, copy),
    ensures
        exists|action: LoopAction<P, E>| action_for(message, context_path, action),
{
    let action = match message {
        EvalJavaScriptIncomingMessage::Error(_) => LoopAction::<P, E>::EmitEvaluation(
            EvaluationIssue { context_path, error: copy },
        ),
        EvalJavaScriptIncomingMessage::FileDependency { path } => LoopAction::ReadFile { path },
        EvalJavaScriptIncomingMessage::BuildDependency { path } => LoopAction::EmitBuildDependency {
            context_path,
            path,
        },
        EvalJavaScriptIncomingMessage::DirDependency { path, glob } => LoopAction::ReadDir {
            path,
            glob,
        },
        _ => LoopAction::Continue,
    };
    assert(action_for(message, context_path, action));
}

/// The paths that actions ask to be read as files, in order.
pub open spec fn read_paths<P, E>(actions: Seq<LoopAction<P, E>>) -> Seq<String>
    decreases actions.len(),
{
    if actions.len() == 0 {
        Seq::empty()
    } else {
        (match actions[0] {
            LoopAction::ReadFile { path } => seq![path],
            _ => Seq::empty(),
        }) + read_paths(actions.drop_first())
    }
}

/// The paths and globs that actions ask to be read as directories, in order.
pub open spec fn read_globs<P, E>(actions: Seq<LoopAction<P, E>>) -> Seq<(String, String)>
    decreases actions.len(),
{
    if actions.len() == 0 {
        Seq::empty()
    } else {
        (match actions[0] {
            LoopAction::ReadDir { path, glob } => seq![(path, glob)],
            _ => Seq::empty(),
        }) + read_globs(actions.drop_first())
    }
}

/// Over any messages, the reads that their actions ask for are, in order, those
/// of the files and of the directories that the messages report. Started in that
/// order, they are the reads that the loop comes to hold.
pub proof fn law_actions_read_what_is_reported<P, E: Clone, F, D>(
    messages: Seq<EvalJavaScriptIncomingMessage<E>>,
    context_path: P,
    actions: Seq<LoopAction<P, E>>,
    read_file: spec_fn(String) -> F,
    read_dir: spec_fn(String, String) -> D,
)
    requires
        messages.len() == actions.len(),
        forall|i: int|
            0 <= i < messages.len() ==> action_for(#[trigger] messages[i], context_path, actions[i]),
    ensures
        file_reads(messages, read_file) == read_paths(actions).map_values(read_file),
        dir_reads(messages, read_dir) == read_globs(actions).map_values(
            |by: (String, String)| read_dir(by.0, by.1),
        ),
    decreases messages.len(),
{
    let globbed = |by: (String, String)| read_dir(by.0, by.1);
    if messages.len() == 0 {
        assert(read_paths(actions).map_values(read_file) =~= Seq::<F>::empty());
        assert(read_globs(actions).map_values(globbed) =~= Seq::<D>::empty());
    } else {
        let rest = messages.drop_first();
        let others = actions.drop_first();
        assert(action_for(messages[0], context_path, actions[0]));
        assert forall|i: int| 0 <= i < rest.len() implies action_for(
            #[trigger] rest[i],
            context_path,
            others[i],
        ) by {
            assert(action_for(messages[i + 1], context_path, actions[i + 1]));
        }
        law_actions_read_what_is_reported(rest, context_path, others, read_file, read_dir);
        assert(file_reads(messages, read_file) =~= read_paths(actions).map_values(read_file));
        assert(dir_reads(messages, read_dir) =~= read_globs(actions).map_values(globbed));
    }
}

/// A step of the loop is what its action asks for: the read that the action
/// starts is kept behind those before it, and any other action keeps none.
pub proof fn law_step_keeps_the_started_read<P, E: Clone, F, D>(
    state: LoopView<E, F, D>,
    message: EvalJavaScriptIncomingMessage<E>,
    context_path: P,
    action: LoopAction<P, E>,
    read_file: spec_fn(String) -> F,
    read_dir: spec_fn(String, String) -> D,
)
    requires
        action_for(message, context_path, action),
    ensures
        ({
            let next = loop_step(state, message, read_file, read_dir);
            &&& next.files == match action {
                LoopAction::ReadFile { path } => state.files.push(read_file(path)),
                _ => state.files,
            }
            &&& next.dirs == match action {
                LoopAction::ReadDir { path, glob } => state.dirs.push(read_dir(path, glob)),
                _ => state.dirs,
            }
            &&& next.output == if action is Continue || action is EmitEvaluation {
                Some(message)
            } else {
                None
            }
        }),
{
}

/// A message leaves the started reads alone, and is the output exactly when it is
/// a value, an end or an error. A started read comes last among its kind, and
/// changes nothing else.
pub proof fn law_loop_state<E, F, D>(
    state: LoopView<E, F, D>,
    message: EvalJavaScriptIncomingMessage<E>,
    file: F,
    dir: D,
)
    ensures
        LoopView::<E, F, D>::start().files.len() == 0,
        LoopView::<E, F, D>::start().dirs.len() == 0,
        LoopView::<E, F, D>::start().output is None,
        state.received(message).files == state.files,
        state.received(message).dirs == state.dirs,
        state.received(message).output is Some <==> message is Value || message is End
            || message is Error,
        state.received(message).output matches Some(output) ==> output == message,
        state.received(message).well_formed(),
        state.with_file(file) == (LoopView::<E, F, D> {
            files: state.files.push(file),
            dirs: state.dirs,
            output: state.output,
        }),
        state.with_dir(dir) == (LoopView::<E, F, D> {
            files: state.files,
            dirs: state.dirs.push(dir),
            output: state.output,
        }),
        state.well_formed() <==> (state.output matches Some(output) ==> output is Value
            || output is End || output is Error),
{
}

/// Every started read is waited for: first each file, then each directory, in the
/// order in which they were started, and nothing else.
pub proof fn law_files_are_waited_for_before_directories<E, F, D>(state: LoopView<E, F, D>)
    ensures
        state.dependencies().len() == state.files.len() + state.dirs.len(),
        forall|i: int|
            0 <= i < state.files.len() ==> #[trigger] state.dependencies()[i] == Dependency::<
                F,
                D,
            >::File(state.files[i]),
        forall|i: int|
            0 <= i < state.dirs.len() ==> state.dependencies()[state.files.len() + i]
                == Dependency::<F, D>::Dir(#[trigger] state.dirs[i]),
{
}

}
